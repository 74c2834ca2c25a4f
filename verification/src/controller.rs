//! The state of the application: the loaded files, the selection and the
//! status line, and how each user action changes them once its file work
//! is done.
use vstd::prelude::*;

use crate::model::{
    error_text, opt_text, path_extension, warnings_of, AppError, AudioFile, AudioFileView,
    CoverArt, TagData, TagDataView,
};
use crate::text::{ascii_lower, dec, eq_ignore_ascii_case, text_eq_ignore_ascii_case, u64_text};

verus! {

/// The files of the library, which one is selected, the status line and
/// the folder that received the last normalised copies.
pub struct MainController {
    files: Vec<AudioFile>,
    selected: Option<usize>,
    status: String,
    last_output_dir: Option<String>,
}

/// The mathematical value of a [`MainController`].
pub struct ControllerView {
    pub files: Seq<AudioFileView>,
    pub selected: Option<int>,
    pub status: Seq<char>,
    pub last_output_dir: Option<Seq<char>>,
}

/// The views of a list of files.
pub open spec fn file_views(v: Seq<AudioFile>) -> Seq<AudioFileView> {
    v.map_values(|f: AudioFile| f@)
}

/// The view of an optional index.
pub open spec fn opt_index(i: Option<usize>) -> Option<int> {
    match i {
        Some(i) => Some(i as int),
        None => None,
    }
}

impl View for MainController {
    type V = ControllerView;

    closed spec fn view(&self) -> ControllerView {
        ControllerView {
            files: file_views(self.files@),
            selected: opt_index(self.selected),
            status: self.status@,
            last_output_dir: opt_text(self.last_output_dir),
        }
    }
}

/// Whether no two files have paths that are equal without ASCII case.
pub open spec fn paths_distinct(files: Seq<AudioFileView>) -> bool {
    forall|i: int, j: int|
        0 <= i < j < files.len() ==> !eq_ignore_ascii_case(
            #[trigger] files[i].path,
            #[trigger] files[j].path,
        )
}

/// Whether a list of files holds one whose path equals `path` without
/// ASCII case.
pub open spec fn has_path(files: Seq<AudioFileView>, path: Seq<char>) -> bool {
    exists|i: int| 0 <= i < files.len() && eq_ignore_ascii_case(#[trigger] files[i].path, path)
}

/// Whether the selection, if any, is a file of the list, and no path is
/// listed twice.
pub open spec fn state_ok(v: ControllerView) -> bool {
    &&& (v.selected matches Some(i) ==> 0 <= i < v.files.len())
    &&& paths_distinct(v.files)
}

/// The status shown before anything was done.
pub open spec fn initial_status() -> Seq<char> {
    "Arrastra MP3 o usa «Añadir MP3» / «Añadir carpeta»."@
}

/// The status when an action needs a selected file and there is none.
pub open spec fn no_selection_status() -> Seq<char> {
    "No hay archivo seleccionado."@
}

/// The status after adding files.
pub open spec fn added_status(added: nat) -> Seq<char> {
    if added == 0 {
        "No se agregaron MP3 nuevos."@
    } else {
        "Se agregaron "@ + dec(added) + " archivo(s)."@
    }
}

/// The status after normalising every file: how many succeeded and, when
/// some failed, how many and the first failure.
pub open spec fn normalize_all_status(ok: nat, failed: Seq<Seq<char>>) -> Seq<char> {
    if failed.len() == 0 {
        dec(ok) + " archivo(s) normalizado(s)."@
    } else {
        dec(ok) + " normalizado(s); "@ + dec(failed.len()) + " con error. Primero: "@ + failed[0]
    }
}

/// The MIME type of a cover chosen by its file extension: PNG or JPEG,
/// without ASCII case.
pub open spec fn cover_mime(ext: Option<Seq<char>>) -> Option<Seq<char>> {
    let e = match ext {
        Some(e) => e.map_values(|c: char| ascii_lower(c)),
        None => Seq::empty(),
    };
    if e == "png"@ {
        Some("image/png"@)
    } else if e == "jpg"@ || e == "jpeg"@ {
        Some("image/jpeg"@)
    } else {
        None
    }
}

/// The total number of warnings of a list of files.
pub open spec fn total_warnings(files: Seq<AudioFileView>) -> nat
    decreases files.len(),
{
    if files.len() == 0 {
        0
    } else {
        total_warnings(files.drop_last()) + warnings_of(files.last().diagnostics).len()
    }
}

/// The number of edited files of a list.
pub open spec fn total_dirty(files: Seq<AudioFileView>) -> nat
    decreases files.len(),
{
    if files.len() == 0 {
        0
    } else {
        total_dirty(files.drop_last()) + (if files.last().dirty {
            1nat
        } else {
            0nat
        })
    }
}

/// The same file with other tags and the edited flag.
pub open spec fn with_tags(f: AudioFileView, tags: TagDataView, dirty: bool) -> AudioFileView {
    AudioFileView { tags, dirty, ..f }
}

/// The reloaded file kept at the path of the file it replaces.
pub open spec fn reloaded_at(old: AudioFileView, reloaded: AudioFileView) -> AudioFileView {
    AudioFileView { path: old.path, ..reloaded }
}

/// Whether `ext` is `mp3` without ASCII case.
pub open spec fn is_mp3_ext(ext: Option<Seq<char>>) -> bool {
    ext matches Some(e) && eq_ignore_ascii_case(e, "mp3"@)
}

/// Whether a file extension is `mp3` without ASCII case.
pub fn is_mp3_extension(ext: Option<String>) -> (r: bool)
    ensures
        r == is_mp3_ext(opt_text(ext)),
{
    match ext {
        Some(e) => text_eq_ignore_ascii_case(e.as_str(), "mp3"),
        None => false,
    }
}

/// The MIME type for a cover file extension.
pub fn cover_mime_type(ext: Option<String>) -> (r: Option<String>)
    ensures
        opt_text(r) == cover_mime(opt_text(ext)),
{
    let e = match ext {
        Some(e) => e,
        None => String::new(),
    };
    if text_eq_ignore_ascii_case(e.as_str(), "png") {
        proof {
            reveal_strlit("png");
            assert(e@.map_values(|c: char| ascii_lower(c)) =~= "png"@);
        }
        Some(String::from_str("image/png"))
    } else if text_eq_ignore_ascii_case(e.as_str(), "jpg") || text_eq_ignore_ascii_case(
        e.as_str(),
        "jpeg",
    ) {
        proof {
            reveal_strlit("jpg");
            reveal_strlit("jpeg");
            let l = e@.map_values(|c: char| ascii_lower(c));
            if eq_ignore_ascii_case(e@, "jpg"@) {
                assert(l =~= "jpg"@);
            } else {
                assert(l =~= "jpeg"@);
            }
        }
        Some(String::from_str("image/jpeg"))
    } else {
        proof {
            reveal_strlit("png");
            reveal_strlit("jpg");
            reveal_strlit("jpeg");
            let l = e@.map_values(|c: char| ascii_lower(c));
            lemma_lower_eq(e@, "png"@);
            lemma_lower_eq(e@, "jpg"@);
            lemma_lower_eq(e@, "jpeg"@);
        }
        None
    }
}

/// A lower-case text equals the lower-case form of `a` exactly when `a`
/// equals it without ASCII case.
proof fn lemma_lower_eq(a: Seq<char>, b: Seq<char>)
    requires
        forall|k: int| 0 <= k < b.len() ==> ascii_lower(#[trigger] b[k]) == b[k],
    ensures
        (a.map_values(|c: char| ascii_lower(c)) == b) == eq_ignore_ascii_case(a, b),
{
    let l = a.map_values(|c: char| ascii_lower(c));
    if eq_ignore_ascii_case(a, b) {
        assert(l =~= b);
    }
    if l == b {
        assert forall|k: int| 0 <= k < a.len() implies ascii_lower(#[trigger] a[k]) == ascii_lower(
            b[k],
        ) by {
            assert(l[k] == ascii_lower(a[k]));
        }
    }
}

/// How putting a cover read from a file with extension `ext` changes the
/// state `old` into `new`: with no selected file, or when the file could not
/// be read or its extension is not PNG or JPEG, only the status changes and
/// says why; otherwise the selected file holds the cover, described as
/// `Cover`.
pub open spec fn cover_set(
    old: ControllerView,
    new: ControllerView,
    ext: Option<Seq<char>>,
    read: Result<Vec<u8>, String>,
) -> bool {
    &&& new.selected == old.selected
    &&& new.last_output_dir == old.last_output_dir
    &&& match old.selected {
        None => new.files == old.files && new.status == no_selection_status(),
        Some(i) => match read {
            Err(e) => new.files == old.files && new.status == "No se pudo leer la portada: "@ + e@,
            Ok(data) => match cover_mime(ext) {
                None => new.files == old.files && new.status == "La portada debe ser PNG o JPEG."@,
                Some(m) => {
                    &&& new.files == old.files.update(
                        i,
                        with_tags(
                            old.files[i],
                            TagDataView {
                                cover: Some(
                                    crate::model::CoverView {
                                        mime_type: m,
                                        description: "Cover"@,
                                        data: data@,
                                    },
                                ),
                                ..old.files[i].tags
                            },
                            old.files[i].dirty,
                        ),
                    )
                    &&& new.status == "Portada cargada. Pulsa «Guardar tags» para escribirla."@
                },
            },
        },
    }
}

/// The files after adding `new` one by one, each unless its path, without
/// ASCII case, is already listed.
pub open spec fn with_added(files: Seq<AudioFileView>, new: Seq<AudioFileView>) -> Seq<AudioFileView>
    decreases new.len(),
{
    if new.len() == 0 {
        files
    } else {
        let before = with_added(files, new.drop_last());
        if has_path(before, new.last().path) {
            before
        } else {
            before.push(new.last())
        }
    }
}

/// The positions of the edited files, in increasing order.
pub open spec fn dirty_positions(files: Seq<AudioFileView>) -> Seq<int>
    decreases files.len(),
{
    if files.len() == 0 {
        Seq::empty()
    } else if files.last().dirty {
        dirty_positions(files.drop_last()).push(files.len() - 1)
    } else {
        dirty_positions(files.drop_last())
    }
}

/// The status after saving every edited file: how many were saved and,
/// when some could not be, the first error.
pub open spec fn save_all_status(saved: nat, first_error: Option<Seq<char>>) -> Seq<char> {
    match first_error {
        None => dec(saved) + " archivo(s) guardado(s) como ID3v2.3."@,
        Some(e) => dec(saved) + " guardado(s). No se pudo guardar: "@ + e,
    }
}

/// The count of a run that saves every edited file: how many were saved
/// and read back, and the first saving error.
pub struct SaveTally {
    saved: usize,
    first_error: Option<String>,
}

impl SaveTally {
    /// How many files were saved and read back.
    pub closed spec fn saved(&self) -> nat {
        self.saved as nat
    }

    /// The first saving error, if any.
    pub closed spec fn first_error(&self) -> Option<Seq<char>> {
        opt_text(self.first_error)
    }

    /// A tally of nothing saved and no error.
    pub fn new() -> (r: SaveTally)
        ensures
            r.saved() == 0,
            r.first_error() is None,
    {
        SaveTally { saved: 0, first_error: None }
    }

    /// Counts the outcome of saving one file: saved and read back, read back
    /// failing, or saving failing (the first such error is kept).
    pub fn record(&mut self, outcome: &Result<Result<AudioFile, AppError>, AppError>)
        requires
            old(self).saved() < usize::MAX,
        ensures
            final(self).saved() == old(self).saved() + (if outcome matches Ok(Ok(_)) {
                1nat
            } else {
                0nat
            }),
            final(self).first_error() == (match outcome {
                Err(e) => if old(self).first_error() is None {
                    Some(error_text(*e))
                } else {
                    old(self).first_error()
                },
                Ok(_) => old(self).first_error(),
            }),
    {
        match outcome {
            Ok(Ok(_)) => {
                self.saved = self.saved + 1;
            },
            Ok(Err(_)) => {},
            Err(e) => {
                if self.first_error.is_none() {
                    self.first_error = Some(e.message());
                }
            },
        }
    }

    /// How many files were saved so far.
    pub fn saved_files(&self) -> (r: usize)
        ensures
            r == self.saved(),
    {
        self.saved
    }

    /// The status once every edited file was tried.
    pub fn status(&self) -> (r: String)
        ensures
            r@ == save_all_status(self.saved(), self.first_error()),
    {
        let mut s = u64_text(self.saved as u64);
        match &self.first_error {
            None => {
                s.append(" archivo(s) guardado(s) como ID3v2.3.");
            },
            Some(e) => {
                s.append(" guardado(s). No se pudo guardar: ");
                s.append(e.as_str());
            },
        }
        s
    }
}

impl MainController {
    /// Whether the selection, if any, is a listed file and no path is listed
    /// twice; every operation keeps it.
    pub open spec fn wf(&self) -> bool {
        state_ok(self@)
    }

    /// A controller with no files, no selection and the initial status.
    pub fn new() -> (r: MainController)
        ensures
            r.wf(),
            r@.files.len() == 0,
            r@.selected is None,
            r@.status == initial_status(),
            r@.last_output_dir is None,
    {
        let c = MainController {
            files: Vec::new(),
            selected: None,
            status: String::from_str("Arrastra MP3 o usa «Añadir MP3» / «Añadir carpeta»."),
            last_output_dir: None,
        };
        assert(c@.files =~= Seq::<AudioFileView>::empty());
        c
    }

    /// The loaded files.
    pub fn files(&self) -> (r: &[AudioFile])
        ensures
            file_views(r@) == self@.files,
    {
        self.files.as_slice()
    }

    /// The index of the selected file.
    pub fn selected_index(&self) -> (r: Option<usize>)
        ensures
            opt_index(r) == self@.selected,
    {
        self.selected
    }

    /// The selected file, when the selection names a listed file.
    pub fn selected(&self) -> (r: Option<&AudioFile>)
        ensures
            match self@.selected {
                Some(i) => if i < self@.files.len() {
                    r matches Some(f) && f@ == self@.files[i]
                } else {
                    r is None
                },
                None => r is None,
            },
    {
        match self.selected {
            Some(i) => if i < self.files.len() {
                Some(&self.files[i])
            } else {
                None
            },
            None => None,
        }
    }

    /// The status line.
    pub fn status(&self) -> (r: &str)
        ensures
            r@ == self@.status,
    {
        self.status.as_str()
    }

    /// The folder that received the last normalised copies.
    pub fn last_output_dir(&self) -> (r: Option<String>)
        ensures
            opt_text(r) == self@.last_output_dir,
    {
        match &self.last_output_dir {
            Some(d) => Some(d.clone()),
            None => None,
        }
    }

    /// Selects the file at `index`, when there is one.
    pub fn select(&mut self, index: usize)
        requires
            old(self).wf(),
        ensures
            final(self).wf(),
            final(self)@.files == old(self)@.files,
            final(self)@.status == old(self)@.status,
            final(self)@.last_output_dir == old(self)@.last_output_dir,
            final(self)@.selected == (if index < old(self)@.files.len() {
                Some(index as int)
            } else {
                old(self)@.selected
            }),
    {
        if index < self.files.len() {
            self.selected = Some(index);
        }
    }

    /// Replaces the status line.
    pub fn set_status(&mut self, status: String)
        requires
            old(self).wf(),
        ensures
            final(self).wf(),
            final(self)@ == (ControllerView { status: status@, ..old(self)@ }),
    {
        self.status = status;
    }

    /// Records the folder that received normalised copies.
    pub fn set_output_dir(&mut self, dir: String)
        requires
            old(self).wf(),
        ensures
            final(self).wf(),
            final(self)@ == (ControllerView { last_output_dir: Some(dir@), ..old(self)@ }),
    {
        self.last_output_dir = Some(dir);
    }

    /// Whether a file with this path, without ASCII case, is already listed.
    pub fn contains_path(&self, path: &str) -> (r: bool)
        ensures
            r == has_path(self@.files, path@),
    {
        let n = self.files.len();
        let mut i: usize = 0;
        while i < n
            invariant
                n == self.files@.len(),
                i <= n,
                forall|k: int| 0 <= k < i ==> !eq_ignore_ascii_case(
                    #[trigger] file_views(self.files@)[k].path,
                    path@,
                ),
            decreases n - i,
        {
            if text_eq_ignore_ascii_case(self.files[i].path.as_str(), path) {
                assert(file_views(self.files@)[i as int].path == self.files@[i as int].path@);
                return true;
            }
            i = i + 1;
        }
        false
    }

    /// Adds a loaded file unless its path is already listed; says whether it
    /// was added.
    pub fn add_file(&mut self, file: AudioFile) -> (r: bool)
        requires
            old(self).wf(),
        ensures
            final(self).wf(),
            r == !has_path(old(self)@.files, file@.path),
            final(self)@.files == (if r {
                old(self)@.files.push(file@)
            } else {
                old(self)@.files
            }),
            final(self)@.selected == old(self)@.selected,
            final(self)@.status == old(self)@.status,
            final(self)@.last_output_dir == old(self)@.last_output_dir,
    {
        if self.contains_path(file.path.as_str()) {
            return false;
        }
        let ghost old_files = file_views(self.files@);
        let ghost fv = file@;
        self.files.push(file);
        assert(file_views(self.files@) =~= old_files.push(fv));
        true
    }

    /// Adds the loaded files in order, each unless its path is already
    /// listed; then selects the first file when none is selected and reports
    /// how many were added. Returns that number.
    pub fn add_loaded(&mut self, loaded: Vec<AudioFile>) -> (added: usize)
        requires
            old(self).wf(),
        ensures
            final(self).wf(),
            final(self)@.files == with_added(old(self)@.files, file_views(loaded@)),
            added == final(self)@.files.len() - old(self)@.files.len(),
            final(self)@.selected == (if old(self)@.selected is None && final(self)@.files.len() > 0 {
                Some(0int)
            } else {
                old(self)@.selected
            }),
            final(self)@.status == added_status(added as nat),
            final(self)@.last_output_dir == old(self)@.last_output_dir,
    {
        let ghost start = self@;
        let n = loaded.len();
        let mut added: usize = 0;
        let mut i: usize = 0;
        while i < n
            invariant
                n == loaded@.len(),
                i <= n,
                self.wf(),
                self@.files == with_added(start.files, file_views(loaded@).take(i as int)),
                added == self@.files.len() - start.files.len(),
                added <= i,
                self@.selected == start.selected,
                self@.status == start.status,
                self@.last_output_dir == start.last_output_dir,
            decreases n - i,
        {
            let ghost nv = file_views(loaded@).take(i + 1);
            assert(nv.drop_last() =~= file_views(loaded@).take(i as int));
            assert(nv.last() == loaded@[i as int]@);
            let f = loaded[i].duplicate();
            if self.add_file(f) {
                added = added + 1;
            }
            i = i + 1;
        }
        assert(file_views(loaded@).take(n as int) =~= file_views(loaded@));
        self.finish_adding(added);
        added
    }

    /// After adding files: selects the first file when none is selected, and
    /// reports how many were added.
    pub fn finish_adding(&mut self, added: usize)
        requires
            old(self).wf(),
        ensures
            final(self).wf(),
            final(self)@.files == old(self)@.files,
            final(self)@.last_output_dir == old(self)@.last_output_dir,
            final(self)@.selected == (if old(self)@.selected is None && old(self)@.files.len() > 0 {
                Some(0int)
            } else {
                old(self)@.selected
            }),
            final(self)@.status == added_status(added as nat),
    {
        if self.selected.is_none() && self.files.len() > 0 {
            self.selected = Some(0);
        }
        self.status = if added == 0 {
            String::from_str("No se agregaron MP3 nuevos.")
        } else {
            let mut s = String::from_str("Se agregaron ");
            let n = u64_text(added as u64);
            s.append(n.as_str());
            s.append(" archivo(s).");
            s
        };
    }

    /// Whether a path names an MP3 file: its extension is `mp3` without
    /// ASCII case.
    /// The extension is read by the platform's path rules: for a plain path
    /// the answer is that of `is_mp3_extension` for its extension; for any
    /// path it is that for an extension that is a piece of `path`, or none.
    pub fn is_mp3(path: &str) -> (r: bool)
        ensures
            crate::model::plain_path(path@) ==> r == is_mp3_ext(crate::model::plain_extension(path@)),
            crate::model::portable_extension_path(path@) ==> r == is_mp3_ext(
                Some(crate::model::portable_extension(path@)),
            ),
            exists|ext: Option<Seq<char>>|
                #![trigger is_mp3_ext(ext)]
                (ext matches Some(e) ==> crate::model::is_infix(e, path@)) && r == is_mp3_ext(ext),
    {
        let ext = path_extension(path);
        let ghost v = opt_text(ext);
        let r = is_mp3_extension(ext);
        assert(r == is_mp3_ext(v));
        r
    }

    /// The selected file that an action works on; when there is none the
    /// status says so.
    pub fn action_target(&mut self) -> (r: Option<usize>)
        requires
            old(self).wf(),
        ensures
            final(self).wf(),
            opt_index(r) == old(self)@.selected,
            r matches Some(i) ==> i < old(self)@.files.len(),
            final(self)@.files == old(self)@.files,
            final(self)@.selected == old(self)@.selected,
            final(self)@.last_output_dir == old(self)@.last_output_dir,
            final(self)@.status == (if r is None {
                no_selection_status()
            } else {
                old(self)@.status
            }),
    {
        match self.selected {
            Some(i) => Some(i),
            None => {
                self.status = String::from_str("No hay archivo seleccionado.");
                None
            },
        }
    }

    /// Puts a file read again from disk in place of the file at `index`; it
    /// stays at the path it was listed under.
    fn replace_reloaded(&mut self, index: usize, reloaded: AudioFile)
        requires
            old(self).wf(),
            index < old(self)@.files.len(),
        ensures
            final(self).wf(),
            final(self)@.files == old(self)@.files.update(
                index as int,
                reloaded_at(old(self)@.files[index as int], reloaded@),
            ),
            final(self)@.selected == old(self)@.selected,
            final(self)@.status == old(self)@.status,
            final(self)@.last_output_dir == old(self)@.last_output_dir,
    {
        let ghost old_files = file_views(self.files@);
        let path = self.files[index].path.clone();
        let file = AudioFile { path, ..reloaded };
        self.files.set(index, file);
        assert(file_views(self.files@) =~= old_files.update(
            index as int,
            reloaded_at(old_files[index as int], reloaded@),
        ));
    }

    /// After saving the file at `index`: on success the file read back
    /// replaces it; the status reports success or the error.
    pub fn finish_save(&mut self, index: usize, outcome: Result<Result<AudioFile, AppError>, AppError>)
        requires
            old(self).wf(),
            index < old(self)@.files.len(),
        ensures
            final(self).wf(),
            final(self)@.selected == old(self)@.selected,
            final(self)@.last_output_dir == old(self)@.last_output_dir,
            match outcome {
                Ok(Ok(f)) => final(self)@.files == old(self)@.files.update(
                    index as int,
                    reloaded_at(old(self)@.files[index as int], f@),
                ) && final(self)@.status == "Tags guardados como ID3v2.3."@,
                Ok(Err(e)) => final(self)@.files == old(self)@.files && final(self)@.status
                    == "Guardado, pero no se pudo recargar: "@ + error_text(e),
                Err(e) => final(self)@.files == old(self)@.files && final(self)@.status
                    == "No se pudo guardar: "@ + error_text(e),
            },
    {
        match outcome {
            Ok(Ok(reloaded)) => {
                self.replace_reloaded(index, reloaded);
                self.set_status(String::from_str("Tags guardados como ID3v2.3."));
            },
            Ok(Err(e)) => {
                let mut s = String::from_str("Guardado, pero no se pudo recargar: ");
                s.append(e.message().as_str());
                self.set_status(s);
            },
            Err(e) => {
                let mut s = String::from_str("No se pudo guardar: ");
                s.append(e.message().as_str());
                self.set_status(s);
            },
        }
    }

    /// After reading the file at `index` again: on success it replaces the
    /// listed file and the edits are dropped; the status reports the error
    /// otherwise.
    pub fn finish_reload(&mut self, index: usize, outcome: Result<AudioFile, AppError>)
        requires
            old(self).wf(),
            index < old(self)@.files.len(),
        ensures
            final(self).wf(),
            final(self)@.selected == old(self)@.selected,
            final(self)@.last_output_dir == old(self)@.last_output_dir,
            match outcome {
                Ok(f) => final(self)@.files == old(self)@.files.update(
                    index as int,
                    reloaded_at(old(self)@.files[index as int], f@),
                ) && final(self)@.status == "Archivo recargado."@,
                Err(e) => final(self)@.files == old(self)@.files && final(self)@.status
                    == "No se pudo recargar: "@ + error_text(e),
            },
    {
        match outcome {
            Ok(reloaded) => {
                self.replace_reloaded(index, reloaded);
                self.set_status(String::from_str("Archivo recargado."));
            },
            Err(e) => {
                let mut s = String::from_str("No se pudo recargar: ");
                s.append(e.message().as_str());
                self.set_status(s);
            },
        }
    }

    /// After normalising the selected file: reports success or the error.
    pub fn finish_normalize_selected(&mut self, outcome: Result<(), String>)
        requires
            old(self).wf(),
        ensures
            final(self).wf(),
            final(self)@.files == old(self)@.files,
            final(self)@.selected == old(self)@.selected,
            final(self)@.last_output_dir == old(self)@.last_output_dir,
            final(self)@.status == (match outcome {
                Ok(()) => "Archivo normalizado sin recodificar el audio."@,
                Err(e) => "Error al normalizar: "@ + e@,
            }),
    {
        match outcome {
            Ok(()) => self.set_status(
                String::from_str("Archivo normalizado sin recodificar el audio."),
            ),
            Err(e) => {
                let mut s = String::from_str("Error al normalizar: ");
                s.append(e.as_str());
                self.set_status(s);
            },
        }
    }

    /// After normalising every file: reports how many succeeded and the first
    /// failure, or that there were no files.
    pub fn finish_normalize_all(&mut self, ok: usize, failed: &Vec<String>)
        requires
            old(self).wf(),
        ensures
            final(self).wf(),
            final(self)@.files == old(self)@.files,
            final(self)@.selected == old(self)@.selected,
            final(self)@.last_output_dir == old(self)@.last_output_dir,
            final(self)@.status == (if old(self)@.files.len() == 0 {
                "No hay archivos cargados."@
            } else {
                normalize_all_status(ok as nat, crate::model::texts(failed@))
            }),
    {
        if self.files.len() == 0 {
            self.set_status(String::from_str("No hay archivos cargados."));
            return;
        }
        let mut s = u64_text(ok as u64);
        if failed.len() == 0 {
            s.append(" archivo(s) normalizado(s).");
        } else {
            s.append(" normalizado(s); ");
            let n = u64_text(failed.len() as u64);
            s.append(n.as_str());
            s.append(" con error. Primero: ");
            s.append(failed[0].as_str());
        }
        self.set_status(s);
    }

    /// Puts the cover read from `path` on the selected file: its type comes
    /// from the extension of `path` (PNG or JPEG) and its description is
    /// `Cover`. The extension is read by the platform's path rules: for a
    /// plain path the outcome is that of `set_cover_with_extension` for its
    /// extension; for any path, for an extension that is a piece of `path`,
    /// or for none.
    pub fn set_cover_from(&mut self, path: &str, read: Result<Vec<u8>, String>)
        requires
            old(self).wf(),
        ensures
            final(self).wf(),
            crate::model::plain_path(path@) ==> cover_set(
                old(self)@,
                final(self)@,
                crate::model::plain_extension(path@),
                read,
            ),
            crate::model::portable_extension_path(path@) ==> cover_set(
                old(self)@,
                final(self)@,
                Some(crate::model::portable_extension(path@)),
                read,
            ),
            exists|ext: Option<Seq<char>>|
                #![trigger cover_set(old(self)@, final(self)@, ext, read)]
                (ext matches Some(e) ==> crate::model::is_infix(e, path@)) && cover_set(
                    old(self)@,
                    final(self)@,
                    ext,
                    read,
                ),
    {
        let ext = path_extension(path);
        let ghost ext_view = opt_text(ext);
        let ghost before = self@;
        self.set_cover_with_extension(ext, read);
        assert(cover_set(before, self@, ext_view, read));
    }

    /// Puts the cover `read` from a file with extension `ext` on the selected
    /// file: its type comes from the extension (PNG or JPEG, without ASCII
    /// case) and its description is `Cover`; the status reports the outcome.
    pub fn set_cover_with_extension(&mut self, ext: Option<String>, read: Result<Vec<u8>, String>)
        requires
            old(self).wf(),
        ensures
            final(self).wf(),
            cover_set(old(self)@, final(self)@, opt_text(ext), read),
    {
        let index = match self.selected {
            Some(i) => i,
            None => {
                self.set_status(String::from_str("No hay archivo seleccionado."));
                return;
            },
        };
        match read {
            Err(e) => {
                let mut s = String::from_str("No se pudo leer la portada: ");
                s.append(e.as_str());
                self.set_status(s);
            },
            Ok(data) => {
                let ghost ext_view = opt_text(ext);
                match cover_mime_type(ext) {
                    None => {
                        self.set_status(String::from_str("La portada debe ser PNG o JPEG."));
                    },
                    Some(mime) => {
                        let cover = CoverArt {
                            mime_type: mime,
                            description: String::from_str("Cover"),
                            data,
                        };
                        self.set_selected_cover(index, Some(cover));
                        self.set_status(
                            String::from_str(
                                "Portada cargada. Pulsa «Guardar tags» para escribirla.",
                            ),
                        );
                    },
                }
            },
        }
    }

    /// Replaces the cover of the file at `index`.
    fn set_selected_cover(&mut self, index: usize, cover: Option<CoverArt>)
        requires
            old(self).wf(),
            index < old(self)@.files.len(),
        ensures
            final(self).wf(),
            final(self)@.files == old(self)@.files.update(
                index as int,
                with_tags(
                    old(self)@.files[index as int],
                    TagDataView {
                        cover: crate::model::cover_view(cover),
                        ..old(self)@.files[index as int].tags
                    },
                    old(self)@.files[index as int].dirty,
                ),
            ),
            final(self)@.selected == old(self)@.selected,
            final(self)@.status == old(self)@.status,
            final(self)@.last_output_dir == old(self)@.last_output_dir,
    {
        let ghost old_files = file_views(self.files@);
        let old_file = &self.files[index];
        let tags = TagData { cover, ..old_file.tags.duplicate() };
        let file = AudioFile {
            path: old_file.path.clone(),
            tags,
            diagnostics: old_file.diagnostics.duplicate(),
            dirty: old_file.dirty,
        };
        let ghost fv = file@;
        self.files.set(index, file);
        assert(file_views(self.files@) =~= old_files.update(index as int, fv));
    }

    /// Puts edited fields on the selected file and records whether it holds
    /// edits that are not saved.
    pub fn update_selected(&mut self, tags: TagData, dirty: bool)
        requires
            old(self).wf(),
        ensures
            final(self).wf(),
            final(self)@.selected == old(self)@.selected,
            final(self)@.status == old(self)@.status,
            final(self)@.last_output_dir == old(self)@.last_output_dir,
            old(self)@.selected is None ==> final(self)@.files == old(self)@.files,
            old(self)@.selected matches Some(i) ==> final(self)@.files == old(self)@.files.update(
                i,
                with_tags(old(self)@.files[i], tags@, dirty),
            ),
    {
        if let Some(index) = self.selected {
            let ghost old_files = file_views(self.files@);
            let old_file = &self.files[index];
            let file = AudioFile {
                path: old_file.path.clone(),
                tags,
                diagnostics: old_file.diagnostics.duplicate(),
                dirty,
            };
            let ghost fv = file@;
            self.files.set(index, file);
            assert(file_views(self.files@) =~= old_files.update(index as int, fv));
        }
    }

    /// The positions of the edited files, in increasing order.
    pub fn dirty_indexes(&self) -> (r: Vec<usize>)
        ensures
            r@.map_values(|i: usize| i as int) == dirty_positions(self@.files),
    {
        let n = self.files.len();
        let mut r: Vec<usize> = Vec::new();
        let mut i: usize = 0;
        assert(file_views(self.files@).take(0) =~= Seq::<AudioFileView>::empty());
        assert(r@.map_values(|k: usize| k as int) =~= Seq::<int>::empty());
        while i < n
            invariant
                n == self.files@.len(),
                i <= n,
                r@.map_values(|k: usize| k as int) == dirty_positions(
                    file_views(self.files@).take(i as int),
                ),
            decreases n - i,
        {
            let ghost fs = file_views(self.files@);
            let ghost before = r@;
            assert(fs.take(i + 1).drop_last() =~= fs.take(i as int));
            assert(fs.take(i + 1).last() == self.files@[i as int]@);
            if self.files[i].dirty {
                r.push(i);
                assert(r@.map_values(|k: usize| k as int) =~= before.map_values(|k: usize| k as int).push(
                    i as int,
                ));
            }
            i = i + 1;
        }
        assert(file_views(self.files@).take(n as int) =~= file_views(self.files@));
        r
    }

    /// The total number of compatibility warnings over all files (at most
    /// the largest `usize`).
    pub fn warning_count(&self) -> (r: usize)
        ensures
            r == (if total_warnings(self@.files) <= usize::MAX {
                total_warnings(self@.files)
            } else {
                usize::MAX as nat
            }),
    {
        let n = self.files.len();
        let mut sum: usize = 0;
        let mut i: usize = 0;
        while i < n
            invariant
                n == self.files@.len(),
                i <= n,
                sum == (if total_warnings(file_views(self.files@).take(i as int)) <= usize::MAX {
                    total_warnings(file_views(self.files@).take(i as int))
                } else {
                    usize::MAX as nat
                }),
            decreases n - i,
        {
            let w = self.files[i].diagnostics.warning_count();
            let ghost fs = file_views(self.files@);
            assert(fs.take(i + 1).drop_last() =~= fs.take(i as int));
            assert(fs.take(i + 1).last() == self.files@[i as int]@);
            sum = sum.saturating_add(w);
            i = i + 1;
        }
        assert(file_views(self.files@).take(n as int) =~= file_views(self.files@));
        sum
    }

    /// The number of files with edits that are not saved.
    pub fn dirty_count(&self) -> (r: usize)
        ensures
            r == total_dirty(self@.files),
    {
        let n = self.files.len();
        let mut count: usize = 0;
        let mut i: usize = 0;
        while i < n
            invariant
                n == self.files@.len(),
                i <= n,
                count == total_dirty(file_views(self.files@).take(i as int)),
                count <= i,
            decreases n - i,
        {
            let ghost fs = file_views(self.files@);
            assert(fs.take(i + 1).drop_last() =~= fs.take(i as int));
            assert(fs.take(i + 1).last() == self.files@[i as int]@);
            if self.files[i].dirty {
                count = count + 1;
            }
            i = i + 1;
        }
        assert(file_views(self.files@).take(n as int) =~= file_views(self.files@));
        count
    }

    /// Removes every file and the selection.
    pub fn clear(&mut self)
        requires
            old(self).wf(),
        ensures
            final(self).wf(),
            final(self)@.files.len() == 0,
            final(self)@.selected is None,
            final(self)@.status == "Lista vaciada."@,
            final(self)@.last_output_dir == old(self)@.last_output_dir,
    {
        self.files = Vec::new();
        self.selected = None;
        self.status = String::from_str("Lista vaciada.");
        assert(file_views(self.files@) =~= Seq::<AudioFileView>::empty());
    }

    /// Removes the selected file from the list; the file that takes its
    /// place, or else the one before it, becomes selected.
    pub fn remove_selected(&mut self)
        requires
            old(self).wf(),
        ensures
            final(self).wf(),
            final(self)@.last_output_dir == old(self)@.last_output_dir,
            old(self)@.selected is None ==> final(self)@ == old(self)@,
            old(self)@.selected matches Some(i) ==> {
                &&& final(self)@.files == old(self)@.files.remove(i)
                &&& final(self)@.selected == (if i < final(self)@.files.len() {
                    Some(i)
                } else if final(self)@.files.len() > 0 {
                    Some(final(self)@.files.len() - 1)
                } else {
                    None
                })
                &&& final(self)@.status == "Archivo quitado de la lista."@
            },
    {
        if let Some(index) = self.selected {
            let ghost old_files = file_views(self.files@);
            self.files.remove(index);
            assert(file_views(self.files@) =~= old_files.remove(index as int));
            assert forall|a: int, b: int| 0 <= a < b < file_views(self.files@).len() implies !eq_ignore_ascii_case(
                #[trigger] file_views(self.files@)[a].path,
                #[trigger] file_views(self.files@)[b].path,
            ) by {
                let a2 = if a < index { a } else { a + 1 };
                let b2 = if b < index { b } else { b + 1 };
                assert(file_views(self.files@)[a] == old_files[a2]);
                assert(file_views(self.files@)[b] == old_files[b2]);
            }
            let n = self.files.len();
            self.selected = if index < n {
                Some(index)
            } else if n > 0 {
                Some(n - 1)
            } else {
                None
            };
            self.status = String::from_str("Archivo quitado de la lista.");
        }
    }

    /// Removes the cover of the selected file.
    pub fn remove_cover(&mut self)
        requires
            old(self).wf(),
        ensures
            final(self).wf(),
            final(self)@.selected == old(self)@.selected,
            final(self)@.last_output_dir == old(self)@.last_output_dir,
            old(self)@.selected is None ==> final(self)@ == old(self)@,
            old(self)@.selected matches Some(i) ==> final(self)@.files == old(self)@.files.update(
                i,
                with_tags(
                    old(self)@.files[i],
                    TagDataView { cover: None, ..old(self)@.files[i].tags },
                    old(self)@.files[i].dirty,
                ),
            ) && final(self)@.status == "Portada eliminada en memoria. Pulsa «Guardar tags»."@,
    {
        if let Some(index) = self.selected {
            self.set_selected_cover(index, None);
            self.set_status(String::from_str("Portada eliminada en memoria. Pulsa «Guardar tags»."));
        }
    }
}

} // verus!

verus! {

/// The library's warning count adds up the warnings of its files: a list
/// with one more file counts that file's warnings more, one file counts its
/// own warnings, and two lists together count the warnings of both.
pub proof fn lemma_warnings_add_up(a: Seq<AudioFileView>, b: Seq<AudioFileView>, f: AudioFileView)
    ensures
        total_warnings(a.push(f)) == total_warnings(a) + warnings_of(f.diagnostics).len(),
        total_warnings(seq![f]) == warnings_of(f.diagnostics).len(),
        total_warnings(a + b) == total_warnings(a) + total_warnings(b),
    decreases b.len(),
{
    assert(a.push(f).drop_last() =~= a);
    assert(seq![f].drop_last() =~= Seq::<AudioFileView>::empty());
    assert(seq![f].last() == f);
    assert(total_warnings(Seq::<AudioFileView>::empty()) == 0);
    assert(total_warnings(seq![f]) == total_warnings(seq![f].drop_last()) + warnings_of(
        seq![f].last().diagnostics,
    ).len());
    if b.len() == 0 {
        assert(a + b =~= a);
    } else {
        let bl = b.drop_last();
        lemma_warnings_add_up(a, bl, f);
        assert((a + b).drop_last() =~= a + bl);
        assert((a + b).last() == b.last());
    }
}

} // verus!
