use batch_exif::editor::{
    command_of_key, image_files, is_image_extension_str, Effect, ExifApp, FolderEntry,
    FolderListing, KeyCommand, Message,
};
use batch_exif::fields::{ExifFields, Field};

fn entry(path: &str, ext: Option<&str>) -> FolderEntry {
    FolderEntry { path: path.to_string(), extension: ext.map(|e| e.to_string()) }
}

fn opened() -> ExifApp {
    let mut app = ExifApp::new();
    let listing = FolderListing {
        display: "/photos".to_string(),
        entries: vec![
            entry("/photos/c.PNG", Some("PNG")),
            entry("/photos/notes.txt", Some("txt")),
            entry("/photos/a.jpg", Some("jpg")),
            entry("/photos/README", None),
            entry("/photos/b.Jpeg", Some("Jpeg")),
        ],
    };
    let e = app.update(Message::FolderSelected(Some(listing)));
    assert_eq!(e, Effect::ReloadFields);
    app
}

#[test]
fn new_editor_asks_for_a_folder() {
    let app = ExifApp::default();
    assert_eq!(app.status, "Select a folder to manage image metadata.");
    assert!(app.file_list.is_empty());
    assert!(app.folder_path.is_none());
}

#[test]
fn opening_a_folder_lists_sorted_photographs_and_selects_the_first() {
    let app = opened();
    assert_eq!(app.status, "Loaded folder: /photos");
    assert_eq!(app.file_list, vec!["/photos/a.jpg", "/photos/b.Jpeg", "/photos/c.PNG"]);
    assert_eq!(app.selected, vec![true, false, false]);
    assert_eq!(app.selected_paths(), vec!["/photos/a.jpg".to_string()]);
}

#[test]
fn image_files_ignore_directory_order() {
    let a = image_files(&vec![entry("z.jpg", Some("jpg")), entry("m.png", Some("png"))]);
    let b = image_files(&vec![entry("m.png", Some("png")), entry("z.jpg", Some("jpg"))]);
    assert_eq!(a, b);
    assert_eq!(a, vec!["m.png", "z.jpg"]);
}

#[test]
fn extensions_are_compared_without_case() {
    assert!(is_image_extension_str(&"JPG".to_string()));
    assert!(is_image_extension_str(&"jpeg".to_string()));
    assert!(is_image_extension_str(&"Png".to_string()));
    assert!(!is_image_extension_str(&"gif".to_string()));
    assert!(!is_image_extension_str(&"jpgx".to_string()));
}

#[test]
fn cancelled_dialog_changes_nothing() {
    let mut app = ExifApp::new();
    assert_eq!(app.update(Message::FolderSelected(None)), Effect::Nothing);
    assert_eq!(app.status, "Select a folder to manage image metadata.");
}

#[test]
fn toggling_twice_restores_the_selection() {
    let mut app = opened();
    assert_eq!(app.update(Message::ToggleFileSelection(2)), Effect::ReloadFields);
    assert_eq!(app.selected, vec![true, false, true]);
    app.update(Message::ToggleFileSelection(2));
    assert_eq!(app.selected, vec![true, false, false]);
    assert_eq!(app.update(Message::ToggleFileSelection(9)), Effect::Nothing);
}

#[test]
fn keys_select_all_none_and_open() {
    let mut app = opened();
    assert_eq!(app.update(Message::KeyPressed("A".to_string())), Effect::ReloadFields);
    assert_eq!(app.selected, vec![true, true, true]);
    assert_eq!(app.selection_summary(), "Selected: 3/3");
    assert_eq!(app.apply_button_label(), "Batch Apply EXIF + XMP");
    assert_eq!(app.update(Message::KeyPressed("d".to_string())), Effect::ReloadFields);
    assert_eq!(app.selected, vec![false, false, false]);
    assert_eq!(app.apply_button_label(), "Apply EXIF + XMP");
    assert_eq!(app.update(Message::KeyPressed("o".to_string())), Effect::PickFolder);
    assert_eq!(app.update(Message::KeyPressed("x".to_string())), Effect::Nothing);
    assert_eq!(command_of_key(&"N".to_string()), Some(KeyCommand::DeselectAll));
    assert_eq!(command_of_key(&"ab".to_string()), None);
}

#[test]
fn apply_without_selection_reports_an_error() {
    let mut app = ExifApp::new();
    assert_eq!(app.update(Message::ApplyChanges), Effect::Nothing);
    assert_eq!(app.status, "Error: No files selected!");
    let mut app = opened();
    app.update(Message::DeselectAllFiles);
    assert_eq!(app.update(Message::ApplyChanges), Effect::Nothing);
    assert_eq!(app.status, "Error: No files selected!");
    app.update(Message::SelectAllFiles);
    assert_eq!(app.update(Message::ApplyChanges), Effect::ApplyToSelection);
}

#[test]
fn finishing_reports_counts() {
    let mut app = opened();
    app.finish_apply(3, 1);
    assert_eq!(app.status, "Updated: 3 succeeded, 1 failed.");
}

#[test]
fn editing_a_field_sets_it() {
    let mut app = opened();
    assert_eq!(app.update(Message::FieldChanged(Field::Caption, "Hi".to_string())), Effect::Nothing);
    assert_eq!(app.fields.caption_str, "Hi");
}

#[test]
fn reload_shows_common_fields_or_blank() {
    let mut app = opened();
    let mut a = ExifFields::blank();
    a.city_str = "Oslo".to_string();
    a.date_str = "1".to_string();
    let mut b = ExifFields::blank();
    b.city_str = "Oslo".to_string();
    b.date_str = "2".to_string();
    app.update(Message::SelectAllFiles);
    app.update_fields_from_selection(&vec![a, b]);
    assert_eq!(app.fields.city_str, "Oslo");
    assert_eq!(app.fields.date_str, "");
    app.update(Message::DeselectAllFiles);
    let mut c = ExifFields::blank();
    c.city_str = "x".to_string();
    app.update_fields_from_selection(&vec![c]);
    assert_eq!(app.fields.city_str, "");
}

#[test]
fn preview_shows_the_last_selected_photograph() {
    let mut app = opened();
    assert_eq!(app.primary_selected(), Some(0));
    app.update(Message::ToggleFileSelection(1));
    assert_eq!(app.primary_selected(), Some(1));
    app.update(Message::DeselectAllFiles);
    assert_eq!(app.primary_selected(), None);
}

#[test]
fn batch_outcomes_are_counted() {
    let mut app = opened();
    app.update(Message::SelectAllFiles);
    assert_eq!(app.selected_paths().len(), 3);
    app.finish_apply_outcomes(&vec![true, false, true]);
    assert_eq!(app.status, "Updated: 2 succeeded, 1 failed.");
}
