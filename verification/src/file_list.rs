//! What the list of files and the line of the current file show.
use vstd::prelude::*;
use vstd::string::*;

use crate::player::{law_loaded_file_is_selected, MusicPlayer, PlayerState};
use crate::text::{decimal, joined, law_decimal_reads_back, number, numbered};
use crate::visualizer::Rgb;

verus! {

/// A line of the list.
#[derive(Debug)]
pub struct Row {
    pub label: String,
    pub fill: Rgb,
    pub text: Rgb,
}

/// The list: its lines, or what stands in their place where there are none.
#[derive(Debug)]
pub enum FileList {
    Empty(String),
    Rows(Vec<Row>),
}

/// The line of the current file. A placeholder is set apart from a name.
#[derive(Debug)]
pub struct FileLabel {
    pub text: String,
    pub placeholder: bool,
}

impl PlayerState {
    /// The file at `i` of the list is selected.
    pub open spec fn selected(self, i: int) -> bool {
        self.selected_file_index is Some && self.selected_file_index->0 == i
    }

    /// The file at `i` of the list is the current one.
    pub open spec fn current(self, i: int) -> bool {
        self.current_file is Some && self.current_file->0.path == self.music_files[i].path
    }

    /// `row` is the line of the file at `i`. The selection shows before the current file.
    pub open spec fn shows(self, i: int, row: Row) -> bool {
        &&& row.label@ == "🎵 "@ + self.music_files[i].name@
        &&& row.fill == if self.selected(i) {
            Rgb { r: 50, g: 100, b: 150 }
        } else if self.current(i) {
            Rgb { r: 40, g: 90, b: 60 }
        } else {
            Rgb { r: 35, g: 40, b: 65 }
        }
        &&& row.text == if self.selected(i) || self.current(i) {
            Rgb { r: 255, g: 255, b: 255 }
        } else {
            Rgb { r: 200, g: 210, b: 235 }
        }
    }
}

impl MusicPlayer {
    fn row(&self, i: usize) -> (res: Row)
        requires
            i < self@.music_files.len(),
        ensures
            self@.shows(i as int, res),
    {
        let track = &self.files()[i];
        let selected: bool = match self.selected_file() {
            Some(index) => index == i,
            None => false,
        };
        let current: bool = match self.current_path() {
            Some(path) => path == track.path,
            None => false,
        };
        let fill = if selected {
            Rgb { r: 50, g: 100, b: 150 }
        } else if current {
            Rgb { r: 40, g: 90, b: 60 }
        } else {
            Rgb { r: 35, g: 40, b: 65 }
        };
        let text = if selected || current {
            Rgb { r: 255, g: 255, b: 255 }
        } else {
            Rgb { r: 200, g: 210, b: 235 }
        };
        Row { label: joined("🎵 ", track.name.as_str()), fill, text }
    }

    /// The lines of the list, from its first file to its last.
    pub fn file_list(&self) -> (res: FileList)
        ensures
            self@.music_files.len() == 0 ==> (res matches FileList::Empty(text) && text@
                == "No music files found"@),
            self@.music_files.len() > 0 ==> (res matches FileList::Rows(rows) && rows@.len()
                == self@.music_files.len() && forall|i: int|
                0 <= i < rows@.len() ==> self@.shows(i, #[trigger] rows@[i])),
    {
        let len: usize = self.files().len();
        if len == 0 {
            return FileList::Empty("No music files found".to_owned());
        }
        let mut rows: Vec<Row> = Vec::new();
        let mut i: usize = 0;
        while i < len
            invariant
                i <= len,
                len == self@.music_files.len(),
                rows@.len() == i,
                forall|j: int| 0 <= j < i ==> self@.shows(j, #[trigger] rows@[j]),
            decreases len - i,
        {
            rows.push(self.row(i));
            i = i + 1;
        }
        FileList::Rows(rows)
    }

    /// The line above the list.
    pub fn count_label(&self) -> (res: String)
        ensures
            res@ == "Files: "@ + decimal(self@.music_files.len()),
            number(res@.skip(7)) == self@.music_files.len(),
    {
        proof {
            reveal_strlit("Files: ");
            law_decimal_reads_back(self@.music_files.len());
            assert(("Files: "@ + decimal(self@.music_files.len())).skip(7) =~= decimal(
                self@.music_files.len(),
            ));
        }
        numbered("Files: ", self.files().len())
    }

    /// The line of the current file.
    pub fn file_label(&self) -> (res: FileLabel)
        ensures
            res.placeholder == self@.current_file is None,
            res.text@ == match self@.current_file {
                Some(track) => track.name@,
                None => "No file selected"@,
            },
    {
        match self.current_file() {
            Some(track) => FileLabel { text: track.name.clone(), placeholder: false },
            None => FileLabel { text: "No file selected".to_owned(), placeholder: true },
        }
    }
}

/// At most one line of the list shows as selected, and every line that does not show as selected
/// or current looks the same.
pub proof fn law_one_line_stands_out(state: PlayerState, i: int, j: int, one: Row, two: Row)
    requires
        state.shows(i, one),
        state.shows(j, two),
    ensures
        state.selected(i) && state.selected(j) ==> i == j,
        !state.selected(i) && !state.current(i) && !state.selected(j) && !state.current(j)
            ==> one.fill == two.fill && one.text == two.text,
{
}

/// A line shows the name of its file behind a note. It looks selected where the selected place is
/// its own, else current where the path of its file is that of the current one, and else plain.
pub proof fn law_line_shows_its_file(state: PlayerState, i: int, row: Row)
    requires
        state.shows(i, row),
    ensures
        row.label@ == "🎵 "@ + state.music_files[i].name@,
        ({
            let selected = state.selected_file_index is Some && state.selected_file_index->0 == i;
            let current = state.current_file is Some && state.current_file->0.path
                == state.music_files[i].path;
            &&& selected ==> row.fill == (Rgb { r: 50, g: 100, b: 150 })
            &&& !selected && current ==> row.fill == (Rgb { r: 40, g: 90, b: 60 })
            &&& !selected && !current ==> row.fill == (Rgb { r: 35, g: 40, b: 65 })
            &&& selected || current ==> row.text == (Rgb { r: 255, g: 255, b: 255 })
            &&& !selected && !current ==> row.text == (Rgb { r: 200, g: 210, b: 235 })
        }),
{
}

/// After the first file of the list with its path is loaded, its line looks selected, wherever the
/// selection was before.
pub proof fn law_loaded_line_is_selected(
    state: PlayerState,
    index: int,
    length: Option<u128>,
    row: Row,
)
    requires
        0 <= index < state.music_files.len() <= usize::MAX,
        forall|j: int|
            0 <= j < index ==> (#[trigger] state.music_files[j]).path
                != state.music_files[index].path,
        state.loaded(state.music_files[index], length).shows(index, row),
    ensures
        row.fill == (Rgb { r: 50, g: 100, b: 150 }),
        row.label@ == "🎵 "@ + state.music_files[index].name@,
{
    law_loaded_file_is_selected(state, state.music_files[index], length, index as usize);
}

/// Two players with the same list, selection and current file show the same lines.
pub proof fn law_lines_depend_on_list_and_choice(
    one: PlayerState,
    two: PlayerState,
    i: int,
    row: Row,
)
    requires
        one.music_files == two.music_files,
        one.selected_file_index == two.selected_file_index,
        one.current_file == two.current_file,
    ensures
        one.shows(i, row) == two.shows(i, row),
{
}

} // verus!
