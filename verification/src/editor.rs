//! The editor's state and how it answers the user: which folder is open,
//! which of its photographs are listed and selected, what the edit form
//! shows, and what the status line says.
//!
//! The editor decides; the program around it does the outside work that a
//! decision asks for ([`Effect`]) and reports back.

use vstd::prelude::*;
use crate::fields::{agreed, common_fields, is_common_view, law_field_is_its_member, values_of, ExifFields, Field};
use crate::text::{
    chars_of, decimal, decimal_chars, eq_ignoring_ascii_case, equals_ignoring_ascii_case,
    lemma_lex_antisymmetric, lemma_lex_total, lemma_lex_transitive, lex_le, lex_le_chars, string_of,
};

verus! {

broadcast use vstd::string::group_string_axioms;

/// A directory entry of the folder that was opened.
pub struct FolderEntry {
    /// The entry's path.
    pub path: String,
    /// Its extension, if it has one.
    pub extension: Option<String>,
}

/// The folder that the user picked, as read from disk.
pub struct FolderListing {
    /// The folder, as shown to the user.
    pub display: String,
    /// Its entries, in the order the directory gave them.
    pub entries: Vec<FolderEntry>,
}

/// What the user did.
pub enum Message {
    /// A key with this text was pressed.
    KeyPressed(String),
    /// Any other window event.
    OtherEvent,
    /// "Open Folder" was pressed.
    SelectFolder,
    /// The folder dialog closed, with a folder or without.
    FolderSelected(Option<FolderListing>),
    /// The photograph at this position of the list was clicked.
    ToggleFileSelection(usize),
    /// "All" was pressed.
    SelectAllFiles,
    /// "None" was pressed.
    DeselectAllFiles,
    /// A field of the edit form was changed.
    FieldChanged(Field, String),
    /// "Apply" was pressed.
    ApplyChanges,
}

/// What the editor asks the program around it to do next.
#[derive(PartialEq, Eq, Structural, Debug, Clone, Copy)]
pub enum Effect {
    /// Nothing.
    Nothing,
    /// Show the folder dialog, and answer with `FolderSelected`.
    PickFolder,
    /// Read the fields of every selected photograph (in list order) and
    /// hand them to [`ExifApp::update_fields_from_selection`].
    ReloadFields,
    /// Write the edit form into every selected photograph, then report with
    /// [`ExifApp::finish_apply`].
    ApplyToSelection,
}

/// A command that a key stands for.
#[derive(PartialEq, Eq, Structural, Debug, Clone, Copy)]
pub enum KeyCommand {
    SelectAll,
    DeselectAll,
    OpenFolder,
}

/// The command of a key: `a` selects all, `n` or `d` selects none, `o`
/// opens a folder, in either case.
pub open spec fn key_command(k: Seq<char>) -> Option<KeyCommand> {
    if k == seq!['a'] || k == seq!['A'] {
        Some(KeyCommand::SelectAll)
    } else if k == seq!['n'] || k == seq!['N'] || k == seq!['d'] || k == seq!['D'] {
        Some(KeyCommand::DeselectAll)
    } else if k == seq!['o'] || k == seq!['O'] {
        Some(KeyCommand::OpenFolder)
    } else {
        None
    }
}

/// The command of a key.
pub fn command_of_key(key: &String) -> (r: Option<KeyCommand>)
    ensures
        r == key_command(key@),
{
    let k = chars_of(key.as_str());
    if k.len() != 1 {
        return None;
    }
    let c = k[0];
    assert(k@ =~= seq![c]);
    if c == 'a' || c == 'A' {
        Some(KeyCommand::SelectAll)
    } else if c == 'n' || c == 'N' || c == 'd' || c == 'D' {
        Some(KeyCommand::DeselectAll)
    } else if c == 'o' || c == 'O' {
        Some(KeyCommand::OpenFolder)
    } else {
        None
    }
}

/// A photograph's extension: `jpg`, `jpeg` or `png`, in any case.
pub open spec fn is_image_extension(ext: Seq<char>) -> bool {
    ||| eq_ignoring_ascii_case(ext, seq!['j', 'p', 'g'])
    ||| eq_ignoring_ascii_case(ext, seq!['j', 'p', 'e', 'g'])
    ||| eq_ignoring_ascii_case(ext, seq!['p', 'n', 'g'])
}

/// Whether `ext` is a photograph's extension.  (Comparing the lower-cased
/// extension with `jpg`, `jpeg` and `png` gives the same answer: no other
/// character lower-cases to one of their letters.)
pub fn is_image_extension_str(ext: &String) -> (b: bool)
    ensures
        b == is_image_extension(ext@),
{
    let e = chars_of(ext.as_str());
    let jpg = vec!['j', 'p', 'g'];
    let jpeg = vec!['j', 'p', 'e', 'g'];
    let png = vec!['p', 'n', 'g'];
    assert(jpg@ =~= seq!['j', 'p', 'g']);
    assert(jpeg@ =~= seq!['j', 'p', 'e', 'g']);
    assert(png@ =~= seq!['p', 'n', 'g']);
    equals_ignoring_ascii_case(&e, &jpg) || equals_ignoring_ascii_case(&e, &jpeg)
        || equals_ignoring_ascii_case(&e, &png)
}

/// The entry names a photograph.
pub open spec fn is_image_entry(e: FolderEntry) -> bool {
    match e.extension {
        Some(x) => is_image_extension(x@),
        None => false,
    }
}

/// The paths of the photographs among `entries`, in directory order.
pub open spec fn image_paths(entries: Seq<FolderEntry>) -> Seq<Seq<char>>
    decreases entries.len(),
{
    if entries.len() == 0 {
        Seq::empty()
    } else {
        let r = image_paths(entries.drop_last());
        if is_image_entry(entries.last()) {
            r.push(entries.last().path@)
        } else {
            r
        }
    }
}

/// Each path sorts no later than the next.
pub open spec fn is_sorted(s: Seq<Seq<char>>) -> bool {
    forall|i: int, j: int| #![trigger s[i], s[j]] 0 <= i && j == i + 1 && j < s.len() ==> lex_le(s[i], s[j])
}

/// The texts of a list of strings.
pub open spec fn texts(v: Seq<String>) -> Seq<Seq<char>> {
    Seq::new(v.len(), |i: int| v[i]@)
}

/// The photographs of a folder listing, sorted by path.
pub fn image_files(entries: &Vec<FolderEntry>) -> (r: Vec<String>)
    ensures
        texts(r@).to_multiset() == image_paths(entries@).to_multiset(),
        is_sorted(texts(r@)),
{
    broadcast use vstd::seq_lib::group_to_multiset_ensures;

    let mut list: Vec<String> = Vec::new();
    let mut keys: Vec<Vec<char>> = Vec::new();
    let mut n: usize = 0;
    while n < entries.len()
        invariant
            n <= entries.len(),
            list@.len() == keys@.len(),
            forall|i: int| 0 <= i < keys@.len() ==> #[trigger] keys@[i]@ == list@[i]@,
            texts(list@).to_multiset() == image_paths(entries@.take(n as int)).to_multiset(),
            is_sorted(texts(list@)),
        decreases entries.len() - n,
    {
        let e = &entries[n];
        assert(entries@.take(n + 1).drop_last() =~= entries@.take(n as int));
        assert(entries@.take(n + 1).last() == entries@[n as int]);
        let is_image = match &e.extension {
            Some(x) => is_image_extension_str(x),
            None => false,
        };
        assert(is_image == is_image_entry(entries@[n as int]));
        assert(image_paths(entries@.take(n + 1)) == if is_image {
            image_paths(entries@.take(n as int)).push(e.path@)
        } else {
            image_paths(entries@.take(n as int))
        });
        if is_image {
            let key = chars_of(e.path.as_str());
            let mut pos: usize = 0;
            while pos < keys.len() && lex_le_chars(&keys[pos], &key)
                invariant
                    pos <= keys@.len(),
                    forall|i: int| 0 <= i < pos ==> lex_le(#[trigger] keys@[i]@, key@),
                decreases keys@.len() - pos,
            {
                pos = pos + 1;
            }
            let ghost old_texts = texts(list@);
            let ghost old_keys = keys@;
            proof {
                if pos < keys@.len() {
                    lemma_lex_total(keys@[pos as int]@, key@);
                }
            }
            list.insert(pos, e.path.clone());
            keys.insert(pos, key);
            proof {
                assert(texts(list@) =~= old_texts.insert(pos as int, e.path@));
                vstd::seq_lib::to_multiset_insert(old_texts, pos as int, e.path@);
                vstd::seq_lib::to_multiset_build(image_paths(entries@.take(n as int)), e.path@);
                assert forall|i: int, j: int| #![trigger texts(list@)[i], texts(list@)[j]]
                    0 <= i && j == i + 1 && j < texts(list@).len() implies lex_le(texts(list@)[i], texts(list@)[j]) by {
                    if j < pos {
                        assert(old_texts[i] == texts(list@)[i]);
                        assert(old_texts[j] == texts(list@)[j]);
                    } else if j == pos {
                        assert(keys@[i]@ == old_keys[i]@);
                    } else if i == pos {
                        assert(texts(list@)[j] == old_keys[pos as int]@);
                    } else {
                        assert(old_texts[i - 1] == texts(list@)[i]);
                        assert(old_texts[j - 1] == texts(list@)[j]);
                    }
                }
            }
        }
        n = n + 1;
    }
    assert(entries@.take(entries.len() as int) =~= entries@);
    list
}

/// How many of the flags are set.
pub open spec fn count_selected(sel: Seq<bool>) -> nat
    decreases sel.len(),
{
    if sel.len() == 0 {
        0
    } else {
        count_selected(sel.drop_last()) + if sel.last() { 1nat } else { 0nat }
    }
}

/// The listed paths whose flags are set, in list order.
pub open spec fn chosen(files: Seq<Seq<char>>, sel: Seq<bool>) -> Seq<Seq<char>>
    decreases sel.len(),
{
    if sel.len() == 0 || files.len() < sel.len() {
        Seq::empty()
    } else {
        let r = chosen(files, sel.drop_last());
        if sel.last() {
            r.push(files[sel.len() - 1])
        } else {
            r
        }
    }
}

/// The status shown before any folder is opened.
pub open spec fn initial_status() -> Seq<char> {
    "Select a folder to manage image metadata."@
}

/// The status shown after a folder is opened.
pub open spec fn loaded_status(display: Seq<char>) -> Seq<char> {
    "Loaded folder: "@ + display
}

/// The status shown when "Apply" finds nothing to write.
pub open spec fn nothing_selected_status() -> Seq<char> {
    "Error: No files selected!"@
}

/// The status shown after writing.
pub open spec fn applied_status(succeeded: nat, failed: nat) -> Seq<char> {
    "Updated: "@ + decimal(succeeded) + " succeeded, "@ + decimal(failed) + " failed."@
}

/// The editor's state.
pub struct ExifApp {
    /// The open folder, as shown.
    pub folder_path: Option<String>,
    /// The photographs of the open folder, sorted by path.
    pub file_list: Vec<String>,
    /// Which of them are selected: one flag per photograph of the list.
    pub selected: Vec<bool>,
    /// The edit form.
    pub fields: ExifFields,
    /// The status line.
    pub status: String,
}

impl ExifApp {
    /// One selection flag per listed photograph.
    pub open spec fn wf(&self) -> bool {
        self.selected@.len() == self.file_list@.len()
    }

    /// Some photograph is selected.
    pub open spec fn any_selected(&self) -> bool {
        exists|i: int| 0 <= i < self.selected@.len() && #[trigger] self.selected@[i]
    }

    /// The paths of the selected photographs, in list order.
    pub open spec fn selected_texts(&self) -> Seq<Seq<char>> {
        chosen(texts(self.file_list@), self.selected@)
    }

    /// Everything but the status and the edit form is as in `other`.
    pub open spec fn same_files(&self, other: ExifApp) -> bool {
        &&& self.folder_path == other.folder_path
        &&& self.file_list@ == other.file_list@
        &&& self.selected@ == other.selected@
    }

    /// No folder open, nothing listed, an empty edit form.
    pub fn new() -> (r: ExifApp)
        ensures
            r.wf(),
            r.folder_path is None,
            r.file_list@.len() == 0,
            r.fields.is_blank(),
            r.status@ == initial_status(),
    {
        ExifApp {
            folder_path: None,
            file_list: Vec::new(),
            selected: Vec::new(),
            fields: ExifFields::blank(),
            status: String::from_str("Select a folder to manage image metadata."),
        }
    }

    /// Whether some photograph is selected.
    pub fn has_selection(&self) -> (b: bool)
        requires
            self.wf(),
        ensures
            b == self.any_selected(),
    {
        let mut i: usize = 0;
        while i < self.selected.len()
            invariant
                i <= self.selected@.len(),
                forall|j: int| 0 <= j < i ==> !#[trigger] self.selected@[j],
            decreases self.selected@.len() - i,
        {
            if self.selected[i] {
                return true;
            }
            i = i + 1;
        }
        false
    }

    /// How many photographs are selected.
    pub fn selected_count(&self) -> (n: usize)
        ensures
            n == count_selected(self.selected@),
    {
        let mut n: usize = 0;
        let mut i: usize = 0;
        while i < self.selected.len()
            invariant
                i <= self.selected@.len(),
                n == count_selected(self.selected@.take(i as int)),
                n <= i,
            decreases self.selected@.len() - i,
        {
            assert(self.selected@.take(i + 1).drop_last() =~= self.selected@.take(i as int));
            if self.selected[i] {
                n = n + 1;
            }
            i = i + 1;
        }
        assert(self.selected@.take(self.selected.len() as int) =~= self.selected@);
        n
    }

    /// The paths of the selected photographs, in list order.
    pub fn selected_paths(&self) -> (r: Vec<String>)
        requires
            self.wf(),
        ensures
            texts(r@) == self.selected_texts(),
            r@.len() == count_selected(self.selected@),
    {
        let mut r: Vec<String> = Vec::new();
        let mut i: usize = 0;
        while i < self.selected.len()
            invariant
                self.wf(),
                i <= self.selected@.len(),
                texts(r@) == chosen(texts(self.file_list@), self.selected@.take(i as int)),
            decreases self.selected@.len() - i,
        {
            assert(self.selected@.take(i + 1).drop_last() =~= self.selected@.take(i as int));
            let ghost before = r@;
            if self.selected[i] {
                r.push(self.file_list[i].clone());
                assert(texts(r@) =~= texts(before).push(self.file_list@[i as int]@));
            }
            i = i + 1;
        }
        assert(self.selected@.take(self.selected.len() as int) =~= self.selected@);
        proof {
            lemma_chosen_len(texts(self.file_list@), self.selected@);
        }
        r
    }

    /// Only the selection flags may differ from `other`.
    pub open spec fn same_but_selection(&self, other: ExifApp) -> bool {
        &&& self.folder_path == other.folder_path
        &&& self.file_list@ == other.file_list@
        &&& self.fields == other.fields
        &&& self.status == other.status
        &&& self.selected@.len() == other.selected@.len()
    }

    /// Nothing differs from `other`.
    pub open spec fn unchanged_from(&self, other: ExifApp) -> bool {
        &&& self.same_files(other)
        &&& self.fields == other.fields
        &&& self.status == other.status
    }

    /// What [`ExifApp::update`] does: the state after `m` and the effect it
    /// asks for.
    pub open spec fn update_post(old: ExifApp, m: Message, new: ExifApp, e: Effect) -> bool {
        match m {
            Message::KeyPressed(k) => match key_command(k@) {
                Some(KeyCommand::SelectAll) => Self::select_all_post(old, new, e),
                Some(KeyCommand::DeselectAll) => Self::deselect_all_post(old, new, e),
                Some(KeyCommand::OpenFolder) => new.unchanged_from(old) && e == Effect::PickFolder,
                None => new.unchanged_from(old) && e == Effect::Nothing,
            },
            Message::OtherEvent => new.unchanged_from(old) && e == Effect::Nothing,
            Message::SelectFolder => new.unchanged_from(old) && e == Effect::PickFolder,
            Message::FolderSelected(None) => new.unchanged_from(old) && e == Effect::Nothing,
            Message::FolderSelected(Some(l)) => {
                &&& new.status@ == loaded_status(l.display@)
                &&& new.folder_path matches Some(p) && p@ == l.display@
                &&& texts(new.file_list@).to_multiset() == image_paths(l.entries@).to_multiset()
                &&& is_sorted(texts(new.file_list@))
                &&& new.selected@.len() == new.file_list@.len()
                &&& forall|i: int| 0 <= i < new.selected@.len() ==> #[trigger] new.selected@[i] == (i == 0)
                &&& new.fields == old.fields
                &&& e == Effect::ReloadFields
            },
            Message::ToggleFileSelection(i) => if i < old.selected@.len() {
                &&& new.same_but_selection(old)
                &&& new.selected@ == old.selected@.update(i as int, !old.selected@[i as int])
                &&& e == Effect::ReloadFields
            } else {
                new.unchanged_from(old) && e == Effect::Nothing
            },
            Message::SelectAllFiles => Self::select_all_post(old, new, e),
            Message::DeselectAllFiles => Self::deselect_all_post(old, new, e),
            Message::FieldChanged(f, v) => {
                &&& new.same_files(old)
                &&& new.status == old.status
                &&& new.fields.get(f) == v@
                &&& forall|g: Field| g != f ==> #[trigger] new.fields.get(g) == old.fields.get(g)
                &&& e == Effect::Nothing
            },
            Message::ApplyChanges => if old.folder_path is None || !old.any_selected() {
                &&& new.same_files(old)
                &&& new.fields == old.fields
                &&& new.status@ == nothing_selected_status()
                &&& e == Effect::Nothing
            } else {
                new.unchanged_from(old) && e == Effect::ApplyToSelection
            },
        }
    }

    /// Every listed photograph is selected.
    pub open spec fn select_all_post(old: ExifApp, new: ExifApp, e: Effect) -> bool {
        &&& new.same_but_selection(old)
        &&& forall|i: int| 0 <= i < new.selected@.len() ==> #[trigger] new.selected@[i]
        &&& e == Effect::ReloadFields
    }

    /// No photograph is selected.
    pub open spec fn deselect_all_post(old: ExifApp, new: ExifApp, e: Effect) -> bool {
        &&& new.same_but_selection(old)
        &&& forall|i: int| 0 <= i < new.selected@.len() ==> !#[trigger] new.selected@[i]
        &&& e == Effect::ReloadFields
    }

    fn set_all(&mut self, flag: bool)
        requires
            old(self).wf(),
        ensures
            final(self).same_but_selection(*old(self)),
            forall|i: int| 0 <= i < final(self).selected@.len() ==> #[trigger] final(self).selected@[i] == flag,
    {
        let mut i: usize = 0;
        while i < self.selected.len()
            invariant
                i <= self.selected@.len(),
                self.same_but_selection(*old(self)),
                forall|j: int| 0 <= j < i ==> #[trigger] self.selected@[j] == flag,
            decreases self.selected@.len() - i,
        {
            self.selected.set(i, flag);
            i = i + 1;
        }
    }

    /// Answers a user action: updates the state and says what outside work
    /// is to follow (see [`ExifApp::update_post`]).
    pub fn update(&mut self, message: Message) -> (effect: Effect)
        requires
            old(self).wf(),
        ensures
            final(self).wf(),
            Self::update_post(*old(self), message, *final(self), effect),
    {
        match message {
            Message::KeyPressed(key) => match command_of_key(&key) {
                Some(KeyCommand::SelectAll) => {
                    self.set_all(true);
                    Effect::ReloadFields
                },
                Some(KeyCommand::DeselectAll) => {
                    self.set_all(false);
                    Effect::ReloadFields
                },
                Some(KeyCommand::OpenFolder) => Effect::PickFolder,
                None => Effect::Nothing,
            },
            Message::OtherEvent => Effect::Nothing,
            Message::SelectFolder => Effect::PickFolder,
            Message::FolderSelected(None) => Effect::Nothing,
            Message::FolderSelected(Some(listing)) => {
                let mut status = String::from_str("Loaded folder: ");
                status.append(listing.display.as_str());
                let files = image_files(&listing.entries);
                let mut selected: Vec<bool> = Vec::new();
                let mut i: usize = 0;
                while i < files.len()
                    invariant
                        i <= files@.len(),
                        selected@.len() == i,
                        forall|j: int| 0 <= j < i ==> #[trigger] selected@[j] == (j == 0),
                    decreases files@.len() - i,
                {
                    selected.push(i == 0);
                    i = i + 1;
                }
                self.status = status;
                self.folder_path = Some(listing.display);
                self.file_list = files;
                self.selected = selected;
                Effect::ReloadFields
            },
            Message::ToggleFileSelection(i) => {
                if i < self.selected.len() {
                    let flag = self.selected[i];
                    self.selected.set(i, !flag);
                    Effect::ReloadFields
                } else {
                    Effect::Nothing
                }
            },
            Message::SelectAllFiles => {
                self.set_all(true);
                Effect::ReloadFields
            },
            Message::DeselectAllFiles => {
                self.set_all(false);
                Effect::ReloadFields
            },
            Message::FieldChanged(f, v) => {
                self.fields.set_field(f, v);
                Effect::Nothing
            },
            Message::ApplyChanges => {
                if self.folder_path.is_none() || !self.has_selection() {
                    self.status = String::from_str("Error: No files selected!");
                    Effect::Nothing
                } else {
                    Effect::ApplyToSelection
                }
            },
        }
    }

    /// Shows in the edit form the fields common to the selected
    /// photographs, given the fields read from each of them: every field
    /// empty when nothing is selected.
    pub fn update_fields_from_selection(&mut self, extracted: &Vec<ExifFields>)
        requires
            old(self).wf(),
        ensures
            final(self).wf(),
            final(self).same_files(*old(self)),
            final(self).status == old(self).status,
            !old(self).any_selected() ==> final(self).fields.is_blank(),
            old(self).any_selected() ==> is_common_view(final(self).fields, extracted@),
    {
        if !self.has_selection() {
            self.fields = ExifFields::blank();
            return;
        }
        self.fields = common_fields(extracted);
    }

    /// Reports on the status line how many photographs were written.
    pub fn finish_apply(&mut self, succeeded: u64, failed: u64)
        ensures
            final(self).same_files(*old(self)),
            final(self).fields == old(self).fields,
            final(self).status@ == applied_status(succeeded as nat, failed as nat),
    {
        let mut status = String::from_str("Updated: ");
        let s = string_of(&decimal_chars(succeeded));
        status.append(s.as_str());
        status.append(" succeeded, ");
        let f = string_of(&decimal_chars(failed));
        status.append(f.as_str());
        status.append(" failed.");
        self.status = status;
    }

    /// Reports on the status line how the writes went, given one outcome per
    /// selected photograph (`true` where its new bytes were saved): the
    /// successes and the failures, which together are the selected
    /// photographs.
    pub fn finish_apply_outcomes(&mut self, outcomes: &Vec<bool>)
        requires
            outcomes@.len() == count_selected(old(self).selected@),
        ensures
            final(self).same_files(*old(self)),
            final(self).fields == old(self).fields,
            final(self).status@ == applied_status(
                count_selected(outcomes@),
                (outcomes@.len() - count_selected(outcomes@)) as nat,
            ),
            count_selected(outcomes@) + (outcomes@.len() - count_selected(outcomes@)) == count_selected(
                old(self).selected@,
            ),
    {
        let mut succeeded: usize = 0;
        let mut i: usize = 0;
        while i < outcomes.len()
            invariant
                i <= outcomes@.len(),
                succeeded == count_selected(outcomes@.take(i as int)),
                succeeded <= i,
            decreases outcomes@.len() - i,
        {
            assert(outcomes@.take(i + 1).drop_last() =~= outcomes@.take(i as int));
            if outcomes[i] {
                succeeded = succeeded + 1;
            }
            i = i + 1;
        }
        assert(outcomes@.take(outcomes.len() as int) =~= outcomes@);
        let failed: usize = outcomes.len() - succeeded;
        self.finish_apply(succeeded as u64, failed as u64);
    }

    /// The selection line of the file panel: `Selected: <selected>/<listed>`.
    pub fn selection_summary(&self) -> (r: String)
        ensures
            r@ == "Selected: "@ + decimal(count_selected(self.selected@)) + "/"@ + decimal(self.file_list@.len()),
    {
        let mut r = String::from_str("Selected: ");
        let n = self.selected_count();
        let a = string_of(&decimal_chars(n as u64));
        r.append(a.as_str());
        r.append("/");
        let b = string_of(&decimal_chars(self.file_list.len() as u64));
        r.append(b.as_str());
        r
    }

    /// The label of the apply button: a batch apply when more than one
    /// photograph is selected.
    pub fn apply_button_label(&self) -> (r: String)
        ensures
            r@ == (if count_selected(self.selected@) > 1 {
                "Batch Apply EXIF + XMP"@
            } else {
                "Apply EXIF + XMP"@
            }),
    {
        if self.selected_count() > 1 {
            String::from_str("Batch Apply EXIF + XMP")
        } else {
            String::from_str("Apply EXIF + XMP")
        }
    }

    /// The photograph shown in the preview: the last selected one of the
    /// list.
    pub fn primary_selected(&self) -> (r: Option<usize>)
        requires
            self.wf(),
        ensures
            match r {
                Some(i) => i < self.selected@.len() && self.selected@[i as int]
                    && forall|j: int| i < j < self.selected@.len() ==> !#[trigger] self.selected@[j],
                None => !self.any_selected(),
            },
    {
        let mut i: usize = self.selected.len();
        while i > 0
            invariant
                i <= self.selected@.len(),
                forall|j: int| i <= j < self.selected@.len() ==> !#[trigger] self.selected@[j],
            decreases i,
        {
            if self.selected[i - 1] {
                return Some(i - 1);
            }
            i = i - 1;
        }
        None
    }
}

impl Default for ExifApp {
    fn default() -> (r: ExifApp)
        ensures
            r.wf(),
            r.folder_path is None,
            r.file_list@.len() == 0,
            r.fields.is_blank(),
            r.status@ == initial_status(),
    {
        ExifApp::new()
    }
}

/// The button that a key command stands for.
pub open spec fn key_message(c: KeyCommand) -> Message {
    match c {
        KeyCommand::SelectAll => Message::SelectAllFiles,
        KeyCommand::DeselectAll => Message::DeselectAllFiles,
        KeyCommand::OpenFolder => Message::SelectFolder,
    }
}

/// Law: a key with a command acts exactly as its button ("All", "None",
/// "Open Folder"); any other key acts as any other window event, changing
/// nothing.
pub proof fn law_key_acts_like_button(a: ExifApp, key: String, b: ExifApp, e: Effect)
    ensures
        key_command(key@) matches Some(c) ==> (ExifApp::update_post(a, Message::KeyPressed(key), b, e)
            <==> ExifApp::update_post(a, key_message(c), b, e)),
        key_command(key@) is None ==> (ExifApp::update_post(a, Message::KeyPressed(key), b, e)
            <==> ExifApp::update_post(a, Message::OtherEvent, b, e)),
{
}

/// Law: the table of shortcut keys.  `a` and `A` stand for "All"; `n`,
/// `N`, `d` and `D` for "None"; `o` and `O` for "Open Folder"; no other
/// text stands for anything.
pub proof fn law_key_table()
    ensures
        key_command(seq!['a']) == Some(KeyCommand::SelectAll),
        key_command(seq!['A']) == Some(KeyCommand::SelectAll),
        key_command(seq!['n']) == Some(KeyCommand::DeselectAll),
        key_command(seq!['N']) == Some(KeyCommand::DeselectAll),
        key_command(seq!['d']) == Some(KeyCommand::DeselectAll),
        key_command(seq!['D']) == Some(KeyCommand::DeselectAll),
        key_command(seq!['o']) == Some(KeyCommand::OpenFolder),
        key_command(seq!['O']) == Some(KeyCommand::OpenFolder),
        forall|k: Seq<char>| #[trigger] key_command(k) is Some ==> k.len() == 1 && (k[0] == 'a' || k[0] == 'A'
            || k[0] == 'n' || k[0] == 'N' || k[0] == 'd' || k[0] == 'D' || k[0] == 'o' || k[0] == 'O'),
{
    assert forall|k: Seq<char>| #[trigger] key_command(k) is Some implies k.len() == 1 && (k[0] == 'a'
        || k[0] == 'A' || k[0] == 'n' || k[0] == 'N' || k[0] == 'd' || k[0] == 'D' || k[0] == 'o'
        || k[0] == 'O') by {
    }
}

/// Law: what a key press does, in every state.  `a` or `A` selects every
/// listed photograph; `n`, `N`, `d` or `D` clears every selection flag;
/// either keeps the list, the form and the status and asks for the fields
/// to be read again.  `o` or `O` changes nothing and asks for the folder
/// dialog; any other key changes nothing and asks for nothing.
pub proof fn law_shortcut_keys(a: ExifApp, key: String, b: ExifApp, e: Effect)
    requires
        ExifApp::update_post(a, Message::KeyPressed(key), b, e),
    ensures
        key@ == seq!['a'] || key@ == seq!['A'] ==> {
            &&& b.file_list@ == a.file_list@
            &&& b.fields == a.fields
            &&& b.status == a.status
            &&& b.selected@.len() == a.selected@.len()
            &&& forall|i: int| 0 <= i < b.selected@.len() ==> #[trigger] b.selected@[i]
            &&& e == Effect::ReloadFields
        },
        key@ == seq!['n'] || key@ == seq!['N'] || key@ == seq!['d'] || key@ == seq!['D'] ==> {
            &&& b.file_list@ == a.file_list@
            &&& b.fields == a.fields
            &&& b.status == a.status
            &&& b.selected@.len() == a.selected@.len()
            &&& forall|i: int| 0 <= i < b.selected@.len() ==> !#[trigger] b.selected@[i]
            &&& e == Effect::ReloadFields
        },
        key@ == seq!['o'] || key@ == seq!['O'] ==> {
            &&& b.file_list@ == a.file_list@
            &&& b.selected@ == a.selected@
            &&& b.fields == a.fields
            &&& b.status == a.status
            &&& e == Effect::PickFolder
        },
        !(key@ == seq!['a'] || key@ == seq!['A'] || key@ == seq!['n'] || key@ == seq!['N'] || key@ == seq!['d']
            || key@ == seq!['D'] || key@ == seq!['o'] || key@ == seq!['O']) ==> {
            &&& b.file_list@ == a.file_list@
            &&& b.selected@ == a.selected@
            &&& b.fields == a.fields
            &&& b.status == a.status
            &&& e == Effect::Nothing
        },
{
    assert(seq!['a'][0] == 'a' && seq!['A'][0] == 'A' && seq!['n'][0] == 'n' && seq!['N'][0] == 'N');
    assert(seq!['d'][0] == 'd' && seq!['D'][0] == 'D' && seq!['o'][0] == 'o' && seq!['O'][0] == 'O');
}

/// Law: typing `v` into the box of field `f` puts `v` in the member of the
/// form that `f` names (the State box in `state_str`, the Country box in
/// `country_str`, and so on) and changes no other member, nor the list,
/// the selection or the status.
pub proof fn law_field_change_sets_that_field(a: ExifApp, f: Field, v: String, b: ExifApp, e: Effect)
    requires
        ExifApp::update_post(a, Message::FieldChanged(f, v), b, e),
    ensures
        b.file_list@ == a.file_list@,
        b.selected@ == a.selected@,
        b.status == a.status,
        e == Effect::Nothing,
        b.fields.date_str@ == (if f == Field::Date { v@ } else { a.fields.date_str@ }),
        b.fields.time_str@ == (if f == Field::Time { v@ } else { a.fields.time_str@ }),
        b.fields.digitized_date_str@ == (if f == Field::DigitizedDate { v@ } else { a.fields.digitized_date_str@ }),
        b.fields.offset_time_str@ == (if f == Field::OffsetTime { v@ } else { a.fields.offset_time_str@ }),
        b.fields.latitude_str@ == (if f == Field::Latitude { v@ } else { a.fields.latitude_str@ }),
        b.fields.longitude_str@ == (if f == Field::Longitude { v@ } else { a.fields.longitude_str@ }),
        b.fields.altitude_str@ == (if f == Field::Altitude { v@ } else { a.fields.altitude_str@ }),
        b.fields.caption_str@ == (if f == Field::Caption { v@ } else { a.fields.caption_str@ }),
        b.fields.credit_str@ == (if f == Field::Credit { v@ } else { a.fields.credit_str@ }),
        b.fields.city_str@ == (if f == Field::City { v@ } else { a.fields.city_str@ }),
        b.fields.state_str@ == (if f == Field::State { v@ } else { a.fields.state_str@ }),
        b.fields.country_str@ == (if f == Field::Country { v@ } else { a.fields.country_str@ }),
        b.fields.sublocation_str@ == (if f == Field::Sublocation { v@ } else { a.fields.sublocation_str@ }),
        b.fields.people_str@ == (if f == Field::People { v@ } else { a.fields.people_str@ }),
{
    law_field_is_its_member(a.fields);
    law_field_is_its_member(b.fields);
    assert(b.fields.get(Field::Date) == (if f == Field::Date { v@ } else { a.fields.get(Field::Date) }));
    assert(b.fields.get(Field::Time) == (if f == Field::Time { v@ } else { a.fields.get(Field::Time) }));
    assert(b.fields.get(Field::DigitizedDate) == (if f == Field::DigitizedDate { v@ } else { a.fields.get(Field::DigitizedDate) }));
    assert(b.fields.get(Field::OffsetTime) == (if f == Field::OffsetTime { v@ } else { a.fields.get(Field::OffsetTime) }));
    assert(b.fields.get(Field::Latitude) == (if f == Field::Latitude { v@ } else { a.fields.get(Field::Latitude) }));
    assert(b.fields.get(Field::Longitude) == (if f == Field::Longitude { v@ } else { a.fields.get(Field::Longitude) }));
    assert(b.fields.get(Field::Altitude) == (if f == Field::Altitude { v@ } else { a.fields.get(Field::Altitude) }));
    assert(b.fields.get(Field::Caption) == (if f == Field::Caption { v@ } else { a.fields.get(Field::Caption) }));
    assert(b.fields.get(Field::Credit) == (if f == Field::Credit { v@ } else { a.fields.get(Field::Credit) }));
    assert(b.fields.get(Field::City) == (if f == Field::City { v@ } else { a.fields.get(Field::City) }));
    assert(b.fields.get(Field::State) == (if f == Field::State { v@ } else { a.fields.get(Field::State) }));
    assert(b.fields.get(Field::Country) == (if f == Field::Country { v@ } else { a.fields.get(Field::Country) }));
    assert(b.fields.get(Field::Sublocation) == (if f == Field::Sublocation { v@ } else { a.fields.get(Field::Sublocation) }));
    assert(b.fields.get(Field::People) == (if f == Field::People { v@ } else { a.fields.get(Field::People) }));
}

/// Law: clicking the same photograph twice leaves the selection as it was.
pub proof fn law_toggle_twice_restores(a: ExifApp, b: ExifApp, c: ExifApp, i: usize, e1: Effect, e2: Effect)
    requires
        ExifApp::update_post(a, Message::ToggleFileSelection(i), b, e1),
        ExifApp::update_post(b, Message::ToggleFileSelection(i), c, e2),
    ensures
        c.selected@ == a.selected@,
        c.file_list@ == a.file_list@,
{
    if i < a.selected@.len() {
        assert(c.selected@ =~= a.selected@);
    }
}

/// Law: after "All", every listed photograph is selected and a reload is
/// asked for; after "None", none is, and the reload empties the form.
pub proof fn law_select_all_then_none(a: ExifApp, b: ExifApp, c: ExifApp, e1: Effect, e2: Effect)
    requires
        ExifApp::update_post(a, Message::SelectAllFiles, b, e1),
        ExifApp::update_post(b, Message::DeselectAllFiles, c, e2),
    ensures
        count_selected(b.selected@) == b.selected@.len(),
        !c.any_selected(),
        e1 == Effect::ReloadFields && e2 == Effect::ReloadFields,
{
    lemma_count_all(b.selected@);
}

/// The chosen paths are as many as the set flags.
pub proof fn lemma_chosen_len(files: Seq<Seq<char>>, sel: Seq<bool>)
    requires
        sel.len() <= files.len(),
    ensures
        chosen(files, sel).len() == count_selected(sel),
    decreases sel.len(),
{
    if sel.len() > 0 {
        lemma_chosen_len(files, sel.drop_last());
    }
}

/// Every flag set: the count is the length.
pub proof fn lemma_count_all(sel: Seq<bool>)
    requires
        forall|i: int| 0 <= i < sel.len() ==> #[trigger] sel[i],
    ensures
        count_selected(sel) == sel.len(),
    decreases sel.len(),
{
    if sel.len() > 0 {
        assert(sel.last());
        lemma_count_all(sel.drop_last());
    }
}

/// In a sorted list the first text sorts no later than any other.
proof fn lemma_sorted_first_least(s: Seq<Seq<char>>, i: int)
    requires
        is_sorted(s),
        0 <= i < s.len(),
    ensures
        lex_le(s[0], s[i]),
    decreases i,
{
    if i == 0 {
        lemma_lex_total(s[0], s[0]);
    } else {
        lemma_sorted_first_least(s, i - 1);
        assert(lex_le(s[i - 1], s[i]));
        lemma_lex_transitive(s[0], s[i - 1], s[i]);
    }
}

/// Two sorted lists that hold the same texts are equal.
proof fn lemma_sorted_unique(s: Seq<Seq<char>>, t: Seq<Seq<char>>)
    requires
        is_sorted(s),
        is_sorted(t),
        s.to_multiset() == t.to_multiset(),
    ensures
        s == t,
    decreases s.len(),
{
    broadcast use vstd::seq_lib::group_to_multiset_ensures;

    vstd::seq_lib::to_multiset_len(s);
    vstd::seq_lib::to_multiset_len(t);
    if s.len() == 0 {
        assert(s =~= t);
    } else {
        vstd::seq_lib::to_multiset_contains(s, t[0]);
        vstd::seq_lib::to_multiset_contains(t, t[0]);
        vstd::seq_lib::to_multiset_contains(t, s[0]);
        vstd::seq_lib::to_multiset_contains(s, s[0]);
        assert(t.contains(t[0]));
        assert(s.contains(t[0]));
        let k = choose|k: int| 0 <= k < s.len() && s[k] == t[0];
        lemma_sorted_first_least(s, k);
        assert(s.contains(s[0]));
        assert(t.contains(s[0]));
        let m = choose|m: int| 0 <= m < t.len() && t[m] == s[0];
        lemma_sorted_first_least(t, m);
        lemma_lex_antisymmetric(s[0], t[0]);
        let s1 = s.drop_first();
        let t1 = t.drop_first();
        assert(s1 =~= s.remove(0));
        assert(t1 =~= t.remove(0));
        vstd::seq_lib::to_multiset_remove(s, 0);
        vstd::seq_lib::to_multiset_remove(t, 0);
        assert forall|i: int, j: int| #![trigger s1[i], s1[j]] 0 <= i && j == i + 1 && j < s1.len() implies lex_le(s1[i], s1[j]) by {
            assert(s[i + 1] == s1[i] && s[j + 1] == s1[j]);
        }
        assert forall|i: int, j: int| #![trigger t1[i], t1[j]] 0 <= i && j == i + 1 && j < t1.len() implies lex_le(t1[i], t1[j]) by {
            assert(t[i + 1] == t1[i] && t[j + 1] == t1[j]);
        }
        lemma_sorted_unique(s1, t1);
        assert(s =~= seq![s[0]] + s1);
        assert(t =~= seq![t[0]] + t1);
    }
}

/// Law: the list of a folder's photographs depends only on which
/// photographs it holds, not on the order in which the directory gives
/// them.
pub proof fn law_file_list_ignores_directory_order(e1: Seq<FolderEntry>, e2: Seq<FolderEntry>, r1: Seq<String>, r2: Seq<String>)
    requires
        image_paths(e1).to_multiset() == image_paths(e2).to_multiset(),
        texts(r1).to_multiset() == image_paths(e1).to_multiset(),
        is_sorted(texts(r1)),
        texts(r2).to_multiset() == image_paths(e2).to_multiset(),
        is_sorted(texts(r2)),
    ensures
        texts(r1) == texts(r2),
{
    lemma_sorted_unique(texts(r1), texts(r2));
}

} // verus!
