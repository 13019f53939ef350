# batch_exif

A desktop editor for the EXIF and XMP metadata of JPEG and PNG photographs,
one photograph or a whole selection at a time: date and time, GPS position,
caption, credit, place (city, state, country, location) and the people shown.

The library under `src/` holds the editor's logic and is verified with Verus:

- `text`: character-level primitives (trimming, searching, words, numbers).
- `xmp`: reading single values and `rdf:Bag` lists out of an XMP packet.
- `fields`: the edit form, and the view that a selection of photographs shows.
- `editor`: the editor's state and how it answers each user action.
- `exif`: the EXIF tags read and written through `little_exif`.
- `plan`: what "Apply" writes: the EXIF edits and the XMP packet.
- `container`: finding and replacing the XMP packet inside JPEG and PNG files,
  through `img-parts`.
- `readback`: what is read back from what "Apply" wrote.

`app/` is the program around it: the `iced` window, the folder dialog, disk
access and the GPS coordinates, which need floating point.
