//! The repository of frontiers: where its files lie, the rules on names and
//! URLs, and the decisions of each operation, as file actions for the
//! caller to carry out in order.

use vstd::prelude::*;
use crate::error::{ErrorKind, NeoError};
use crate::lines::{
    is_line_safe, is_white_space, lemma_lines_round_trip, nonempty_lines, parse_lines, render_lines,
    render_urls, trim, trim_end, trim_start, trim_string, views,
};
use crate::order::{is_sorted, sort_texts};
use crate::text::{chars_of, concat3, contains_char, decimal, push_char, push_decimal};
use crate::util::{url_error_text, url_is_valid, validate_url};

verus! {

// ---------------------------------------------------------------------------
// Paths

/// A path joined with a further part, as `Path::join` does on Unix: an
/// absolute part replaces the path; otherwise a `/` is put between them
/// unless the path is empty or already ends with one.
pub open spec fn path_join(base: Seq<char>, part: Seq<char>) -> Seq<char> {
    if part.len() > 0 && part[0] == '/' {
        part
    } else if base.len() > 0 && base.last() != '/' {
        base + seq!['/'] + part
    } else {
        base + part
    }
}

/// `base` joined with `part` (`Path::join` on Unix).
pub fn path_join_exec(base: &str, part: &str) -> (p: String)
    ensures
        p@ == path_join(base@, part@),
{
    let pc = chars_of(part);
    if pc.len() > 0 && pc[0] == '/' {
        return String::from_str(part);
    }
    let bc = chars_of(base);
    let mut p = String::from_str(base);
    if bc.len() > 0 && bc[bc.len() - 1] != '/' {
        push_char(&mut p, '/');
    }
    p.append(part);
    p
}

/// `<root>/frontiers`, where the frontiers' directories lie.
pub open spec fn frontiers_dir_of(root: Seq<char>) -> Seq<char> {
    path_join(root, "frontiers"@)
}

/// The directory of frontier `name`.
pub open spec fn frontier_dir_of(root: Seq<char>, name: Seq<char>) -> Seq<char> {
    path_join(frontiers_dir_of(root), name)
}

/// The file of the URLs still to read in frontier `name`.
pub open spec fn frontier_file_of(root: Seq<char>, name: Seq<char>) -> Seq<char> {
    path_join(frontier_dir_of(root, name), "frontier.txt"@)
}

/// The file of every URL added to frontier `name` and not deleted.
pub open spec fn library_file_of(root: Seq<char>, name: Seq<char>) -> Seq<char> {
    path_join(frontier_dir_of(root, name), "library.txt"@)
}

/// The file that records frontier `name`'s own name.
pub open spec fn meta_file_of(root: Seq<char>, name: Seq<char>) -> Seq<char> {
    path_join(frontier_dir_of(root, name), "meta.txt"@)
}

/// The file of the pages crawled for frontier `name`.
pub open spec fn crawl_file_of(root: Seq<char>, name: Seq<char>) -> Seq<char> {
    path_join(frontier_dir_of(root, name), "crawl.jsonl"@)
}

/// The file that names the selected frontier.
pub open spec fn current_path_of(root: Seq<char>) -> Seq<char> {
    path_join(root, "current_frontier"@)
}

// ---------------------------------------------------------------------------
// File actions

/// A change to the file system, for the caller to carry out.
#[derive(Debug, PartialEq, Eq)]
pub enum FsAction {
    /// Create a directory and its missing parents.
    CreateDirAll(String),
    /// Replace a file's content by writing a temporary file and renaming it.
    WriteAtomic(String, String),
    /// Rename a file or directory.
    Rename(String, String),
    /// Remove a directory and everything in it.
    RemoveDirAll(String),
    /// Remove a file if it exists.
    RemoveFileIfExists(String),
}

/// An action over character sequences.
pub enum FsActionView {
    CreateDirAll(Seq<char>),
    WriteAtomic(Seq<char>, Seq<char>),
    Rename(Seq<char>, Seq<char>),
    RemoveDirAll(Seq<char>),
    RemoveFileIfExists(Seq<char>),
}

impl View for FsAction {
    type V = FsActionView;

    open spec fn view(&self) -> FsActionView {
        match self {
            FsAction::CreateDirAll(p) => FsActionView::CreateDirAll(p@),
            FsAction::WriteAtomic(p, c) => FsActionView::WriteAtomic(p@, c@),
            FsAction::Rename(a, b) => FsActionView::Rename(a@, b@),
            FsAction::RemoveDirAll(p) => FsActionView::RemoveDirAll(p@),
            FsAction::RemoveFileIfExists(p) => FsActionView::RemoveFileIfExists(p@),
        }
    }
}

/// The views of a list of actions.
pub open spec fn action_views(acts: Seq<FsAction>) -> Seq<FsActionView> {
    acts.map_values(|a: FsAction| a@)
}

/// The view of an optional string.
pub open spec fn opt_view(o: Option<String>) -> Option<Seq<char>> {
    match o {
        Some(s) => Some(s@),
        None => None,
    }
}

/// The view of an optional string slice.
pub open spec fn opt_str_view(o: Option<&str>) -> Option<Seq<char>> {
    match o {
        Some(s) => Some(s@),
        None => None,
    }
}

/// Where the repository lives, from three environment variables:
/// `NEO_ROOT_DIR` as it is, else `XDG_DATA_HOME` joined with `neo`, else
/// `HOME` joined with `.local/share/neo`; `None` when none of them is set.
pub open spec fn root_dir_of(
    neo_root_dir: Option<Seq<char>>,
    xdg_data_home: Option<Seq<char>>,
    home: Option<Seq<char>>,
) -> Option<Seq<char>> {
    match neo_root_dir {
        Some(p) => Some(p),
        None => match xdg_data_home {
            Some(x) => Some(path_join(x, "neo"@)),
            None => match home {
                Some(h) => Some(path_join(path_join(path_join(h, ".local"@), "share"@), "neo"@)),
                None => None,
            },
        },
    }
}

/// The repository's root directory, from the values of `NEO_ROOT_DIR`,
/// `XDG_DATA_HOME` and `HOME` (`None` for a variable that is not set).
pub fn default_root_dir(
    neo_root_dir: Option<String>,
    xdg_data_home: Option<String>,
    home: Option<String>,
) -> (r: Result<String, NeoError>)
    ensures
        r is Ok <==> root_dir_of(opt_view(neo_root_dir), opt_view(xdg_data_home), opt_view(home)) is Some,
        r matches Ok(p) ==> Some(p@) == root_dir_of(
            opt_view(neo_root_dir),
            opt_view(xdg_data_home),
            opt_view(home),
        ),
        r matches Err(e) ==> e@ == (ErrorKind::Message, "HOME is not set"@),
{
    if let Some(path) = neo_root_dir {
        return Ok(path);
    }
    if let Some(path) = xdg_data_home {
        return Ok(path_join_exec(path.as_str(), "neo"));
    }
    match home {
        Some(h) => {
            let local = path_join_exec(h.as_str(), ".local");
            let share = path_join_exec(local.as_str(), "share");
            Ok(path_join_exec(share.as_str(), "neo"))
        },
        None => Err(NeoError::Message(String::from_str("HOME is not set"))),
    }
}

// ---------------------------------------------------------------------------
// Names and messages

/// Why a frontier name is refused, if it is: it is empty, or it holds a
/// path separator.
pub open spec fn name_error(name: Seq<char>) -> Option<Seq<char>> {
    if name.len() == 0 {
        Some("frontier name cannot be empty"@)
    } else if name.contains('/') || name.contains('\\') {
        Some("frontier name cannot contain path separators"@)
    } else {
        None
    }
}

/// Accepts a frontier name that is not empty and holds neither `/` nor `\\`.
pub fn validate_name(name: &str) -> (r: Result<(), NeoError>)
    ensures
        name_error(name@) is None ==> r is Ok,
        name_error(name@) matches Some(m) ==> (r matches Err(e) && e@ == (ErrorKind::Message, m)),
{
    if name.is_empty() {
        return Err(NeoError::Message(String::from_str("frontier name cannot be empty")));
    }
    if contains_char(name, '/') || contains_char(name, '\\') {
        return Err(
            NeoError::Message(String::from_str("frontier name cannot contain path separators")),
        );
    }
    Ok(())
}

pub open spec fn already_exists_text(name: Seq<char>) -> Seq<char> {
    "frontier '"@ + name + "' already exists"@
}

pub open spec fn does_not_exist_text(name: Seq<char>) -> Seq<char> {
    "frontier '"@ + name + "' does not exist"@
}

pub open spec fn empty_text(frontier: Seq<char>) -> Seq<char> {
    "frontier '"@ + frontier + "' is empty"@
}

pub open spec fn out_of_bounds_text(index: nat, frontier: Seq<char>) -> Seq<char> {
    "index "@ + decimal(index) + " is out of bounds for frontier '"@ + frontier + seq!['\'']
}

pub open spec fn not_found_text(frontier: Seq<char>) -> Seq<char> {
    "url not found in frontier '"@ + frontier + seq!['\'']
}

pub open spec fn no_active_text() -> Seq<char> {
    "no active frontier; run `neo frontier start <name>`"@
}

/// The content of the file that records the selected frontier.
pub open spec fn selection_text(name: Seq<char>) -> Seq<char> {
    name.push('\n')
}

/// The content of a frontier's `meta.txt`.
pub open spec fn meta_text(name: Seq<char>) -> Seq<char> {
    "name="@ + name.push('\n')
}

fn message_quoted(prefix: &str, name: &str, suffix: &str) -> (e: NeoError)
    ensures
        e@ == (ErrorKind::Message, prefix@ + name@ + suffix@),
{
    NeoError::Message(concat3(prefix, name, suffix))
}

} // verus!

verus! {

// ---------------------------------------------------------------------------
// The repository

/// A repository of frontiers under a root directory. Each frontier is a
/// directory under `<root>/frontiers` holding `frontier.txt` (the URLs still
/// to read, oldest first), `library.txt` (every URL ever added and not
/// deleted), `meta.txt` and `crawl.jsonl`; `<root>/current_frontier` names
/// the selected frontier.
pub struct FrontierRepo {
    root: String,
}

impl View for FrontierRepo {
    type V = Seq<char>;

    closed spec fn view(&self) -> Seq<char> {
        self.root@
    }
}

/// What opening a repository does: create `<root>/frontiers` and its parents.
pub open spec fn open_plan(root: Seq<char>) -> Seq<FsActionView> {
    seq![FsActionView::CreateDirAll(frontiers_dir_of(root))]
}

/// Recording the selection: write the name and a newline to
/// `<root>/current_frontier`, or remove that file to select nothing.
pub open spec fn select_plan(root: Seq<char>, frontier: Option<Seq<char>>) -> Seq<FsActionView> {
    match frontier {
        Some(name) => seq![FsActionView::WriteAtomic(current_path_of(root), selection_text(name))],
        None => seq![FsActionView::RemoveFileIfExists(current_path_of(root))],
    }
}

/// Creating a frontier: its directory, its four files, and the selection if asked.
pub open spec fn create_plan(root: Seq<char>, name: Seq<char>, switch_to_it: bool) -> Seq<FsActionView> {
    let dir = frontier_dir_of(root, name);
    let files = seq![
        FsActionView::CreateDirAll(dir),
        FsActionView::WriteAtomic(frontier_file_of(root, name), Seq::empty()),
        FsActionView::WriteAtomic(library_file_of(root, name), Seq::empty()),
        FsActionView::WriteAtomic(meta_file_of(root, name), meta_text(name)),
        FsActionView::WriteAtomic(crawl_file_of(root, name), Seq::empty()),
    ];
    if switch_to_it {
        files + select_plan(root, Some(name))
    } else {
        files
    }
}

/// Renaming a frontier: move its directory, then rewrite its `meta.txt`.
pub open spec fn rename_plan(root: Seq<char>, name: Seq<char>, new_name: Seq<char>) -> Seq<FsActionView> {
    seq![
        FsActionView::Rename(frontier_dir_of(root, name), frontier_dir_of(root, new_name)),
        FsActionView::WriteAtomic(meta_file_of(root, new_name), meta_text(new_name)),
    ]
}

/// After a frontier is renamed or deleted: if it was the selected one, the
/// selection moves to `replacement` (or to nothing); otherwise nothing changes.
pub open spec fn update_selection_plan(
    root: Seq<char>,
    selected: Option<Seq<char>>,
    name: Seq<char>,
    replacement: Option<Seq<char>>,
) -> Seq<FsActionView> {
    if selected == Some(name) {
        select_plan(root, replacement)
    } else {
        Seq::empty()
    }
}

/// The selected frontier, from the content of `current_frontier` (`None`
/// when the file does not exist): its trimmed text, unless that is empty.
pub open spec fn selected_frontier(content: Option<Seq<char>>) -> Option<Seq<char>> {
    match content {
        Some(c) => if trim(c).len() == 0 { None } else { Some(trim(c)) },
        None => None,
    }
}

/// The URLs of a list file, from its content (`None` when it does not exist).
pub open spec fn stored_urls(content: Option<Seq<char>>) -> Seq<Seq<char>> {
    match content {
        Some(c) => nonempty_lines(c),
        None => Seq::empty(),
    }
}

/// The position `pop` takes from: the index given, or the front.
pub open spec fn pop_position(index: Option<usize>) -> nat {
    match index {
        Some(i) => i as nat,
        None => 0,
    }
}

/// The list without any entry equal to `x`, in the same order.
pub open spec fn without(lines: Seq<Seq<char>>, x: Seq<char>) -> Seq<Seq<char>>
    decreases lines.len(),
{
    if lines.len() == 0 {
        lines
    } else if lines.last() == x {
        without(lines.drop_last(), x)
    } else {
        without(lines.drop_last(), x).push(lines.last())
    }
}

/// Removing every entry equal to `x` shortens the list exactly when it holds `x`.
pub proof fn lemma_without_len(lines: Seq<Seq<char>>, x: Seq<char>)
    ensures
        without(lines, x).len() <= lines.len(),
        without(lines, x).len() == lines.len() <==> !lines.contains(x),
    decreases lines.len(),
{
    if lines.len() > 0 {
        lemma_without_len(lines.drop_last(), x);
        if lines.drop_last().contains(x) {
            let k = choose|k: int| 0 <= k < lines.drop_last().len() && lines.drop_last()[k] == x;
            assert(lines[k] == x);
        }
        if lines.last() == x {
            assert(lines[lines.len() - 1] == x);
        }
        if lines.contains(x) && lines.last() != x {
            let k = choose|k: int| 0 <= k < lines.len() && lines[k] == x;
            assert(k != lines.len() - 1);
            assert(lines.drop_last()[k] == x);
        }
    }
}

/// `urls` without any entry equal to `url`.
fn remove_all(urls: &Vec<String>, url: &String) -> (r: Vec<String>)
    ensures
        views(r@) == without(views(urls@), url@),
{
    let mut r: Vec<String> = Vec::new();
    let mut i: usize = 0;
    while i < urls.len()
        invariant
            i <= urls.len(),
            views(r@) == without(views(urls@).take(i as int), url@),
        decreases urls.len() - i,
    {
        proof {
            assert(views(urls@).take(i + 1).drop_last() =~= views(urls@).take(i as int));
            assert(views(urls@).take(i + 1).last() == urls@[i as int]@);
        }
        if urls[i] != *url {
            r.push(urls[i].clone());
            proof {
                assert(views(r@) =~= without(views(urls@).take(i as int), url@).push(urls@[i as int]@));
            }
        }
        i = i + 1;
    }
    proof {
        assert(views(urls@).take(urls.len() as int) =~= views(urls@));
    }
    r
}

} // verus!

verus! {

impl FrontierRepo {
    /// A repository rooted at `root`, and what opening it does on disk
    /// (create `<root>/frontiers`).
    pub fn open(root: String) -> (r: (FrontierRepo, Vec<FsAction>))
        ensures
            r.0@ == root@,
            action_views(r.1@) == open_plan(root@),
    {
        let repo = FrontierRepo { root };
        let mut acts: Vec<FsAction> = Vec::new();
        acts.push(FsAction::CreateDirAll(repo.frontiers_dir()));
        proof {
            assert(action_views(acts@) =~= open_plan(repo@));
        }
        (repo, acts)
    }

    /// The root directory.
    pub fn root(&self) -> (r: &String)
        ensures
            r@ == self@,
    {
        &self.root
    }

    /// `<root>/frontiers`.
    pub fn frontiers_dir(&self) -> (p: String)
        ensures
            p@ == frontiers_dir_of(self@),
    {
        path_join_exec(self.root.as_str(), "frontiers")
    }

    /// `<root>/frontiers/<name>`.
    pub fn frontier_dir(&self, name: &str) -> (p: String)
        ensures
            p@ == frontier_dir_of(self@, name@),
    {
        let dir = self.frontiers_dir();
        path_join_exec(dir.as_str(), name)
    }

    /// The file of the URLs still to read in frontier `name`.
    pub fn frontier_file(&self, name: &str) -> (p: String)
        ensures
            p@ == frontier_file_of(self@, name@),
    {
        let dir = self.frontier_dir(name);
        path_join_exec(dir.as_str(), "frontier.txt")
    }

    /// The file of every URL added to frontier `name` and not deleted.
    pub fn library_file(&self, name: &str) -> (p: String)
        ensures
            p@ == library_file_of(self@, name@),
    {
        let dir = self.frontier_dir(name);
        path_join_exec(dir.as_str(), "library.txt")
    }

    /// The list that a crawl of frontier `name` reads: the library when
    /// `library`, else the frontier's own list.
    pub fn crawl_source_file(&self, name: &str, library: bool) -> (p: String)
        ensures
            p@ == (if library {
                library_file_of(self@, name@)
            } else {
                frontier_file_of(self@, name@)
            }),
    {
        if library {
            self.library_file(name)
        } else {
            self.frontier_file(name)
        }
    }

    /// The file of pages crawled for frontier `name`.
    pub fn crawl_file(&self, name: &str) -> (p: String)
        ensures
            p@ == crawl_file_of(self@, name@),
    {
        let dir = self.frontier_dir(name);
        path_join_exec(dir.as_str(), "crawl.jsonl")
    }

    /// The file that names the selected frontier.
    pub fn current_path(&self) -> (p: String)
        ensures
            p@ == current_path_of(self@),
    {
        path_join_exec(self.root.as_str(), "current_frontier")
    }

    /// What recording the selection does: write `<name>\n` to the
    /// selection file, or remove it when `frontier` is `None`.
    pub fn set_current_frontier(&self, frontier: Option<&str>) -> (acts: Vec<FsAction>)
        ensures
            action_views(acts@) == select_plan(self@, opt_str_view(frontier)),
    {
        let mut acts: Vec<FsAction> = Vec::new();
        match frontier {
            Some(name) => {
                let mut content = String::from_str(name);
                push_char(&mut content, '\n');
                acts.push(FsAction::WriteAtomic(self.current_path(), content));
            },
            None => {
                acts.push(FsAction::RemoveFileIfExists(self.current_path()));
            },
        }
        proof {
            assert(action_views(acts@) =~= select_plan(self@, opt_str_view(frontier)));
        }
        acts
    }

    /// Creates frontier `name`, and selects it when `switch_to_it` holds.
    /// `exists` tells whether anything is already at its directory's path.
    pub fn create_frontier(&self, name: &str, exists: bool, switch_to_it: bool) -> (r: Result<
        Vec<FsAction>,
        NeoError,
    >)
        ensures
            name_error(name@) matches Some(m) ==> (r matches Err(e) && e@ == (ErrorKind::Message, m)),
            name_error(name@) is None && exists ==> (r matches Err(e) && e@ == (
                ErrorKind::Message,
                already_exists_text(name@),
            )),
            name_error(name@) is None && !exists ==> (r matches Ok(acts) && action_views(acts@)
                == create_plan(self@, name@, switch_to_it)),
    {
        validate_name(name)?;
        if exists {
            return Err(message_quoted("frontier '", name, "' already exists"));
        }
        let dir = self.frontier_dir(name);
        let mut meta = String::from_str("name=");
        meta.append(name);
        push_char(&mut meta, '\n');
        let mut acts: Vec<FsAction> = Vec::new();
        acts.push(FsAction::CreateDirAll(dir.clone()));
        acts.push(FsAction::WriteAtomic(path_join_exec(dir.as_str(), "frontier.txt"), String::new()));
        acts.push(FsAction::WriteAtomic(path_join_exec(dir.as_str(), "library.txt"), String::new()));
        acts.push(FsAction::WriteAtomic(path_join_exec(dir.as_str(), "meta.txt"), meta));
        acts.push(FsAction::WriteAtomic(path_join_exec(dir.as_str(), "crawl.jsonl"), String::new()));
        proof {
            assert(meta@ =~= meta_text(name@));
        }
        if switch_to_it {
            let mut select = self.set_current_frontier(Some(name));
            let ghost before = acts@;
            acts.append(&mut select);
            proof {
                assert(action_views(acts@) =~= action_views(before) + select_plan(self@, Some(name@)));
            }
        }
        proof {
            assert(action_views(acts@) =~= create_plan(self@, name@, switch_to_it));
        }
        Ok(acts)
    }

    /// Selects frontier `name`; `is_dir` tells whether its directory exists.
    pub fn switch_frontier(&self, name: &str, is_dir: bool) -> (r: Result<Vec<FsAction>, NeoError>)
        ensures
            name_error(name@) matches Some(m) ==> (r matches Err(e) && e@ == (ErrorKind::Message, m)),
            name_error(name@) is None && !is_dir ==> (r matches Err(e) && e@ == (
                ErrorKind::Message,
                does_not_exist_text(name@),
            )),
            name_error(name@) is None && is_dir ==> (r matches Ok(acts) && action_views(acts@)
                == select_plan(self@, Some(name@))),
    {
        validate_name(name)?;
        if !is_dir {
            return Err(message_quoted("frontier '", name, "' does not exist"));
        }
        Ok(self.set_current_frontier(Some(name)))
    }

    /// Renames frontier `name` to `new_name`; `source_is_dir` tells whether
    /// the old directory exists, `target_exists` whether anything is at the
    /// new one's path. Whether the selection follows is decided afterwards,
    /// by `update_selection`.
    pub fn rename_frontier(
        &self,
        name: &str,
        new_name: &str,
        source_is_dir: bool,
        target_exists: bool,
    ) -> (r: Result<Vec<FsAction>, NeoError>)
        ensures
            name_error(name@) matches Some(m) ==> (r matches Err(e) && e@ == (ErrorKind::Message, m)),
            name_error(name@) is None ==> (name_error(new_name@) matches Some(m) ==> (r matches Err(e)
                && e@ == (ErrorKind::Message, m))),
            name_error(name@) is None && name_error(new_name@) is None && !source_is_dir
                ==> (r matches Err(e) && e@ == (ErrorKind::Message, does_not_exist_text(name@))),
            name_error(name@) is None && name_error(new_name@) is None && source_is_dir
                && target_exists ==> (r matches Err(e) && e@ == (
                ErrorKind::Message,
                already_exists_text(new_name@),
            )),
            name_error(name@) is None && name_error(new_name@) is None && source_is_dir
                && !target_exists ==> (r matches Ok(acts) && action_views(acts@) == rename_plan(
                self@,
                name@,
                new_name@,
            )),
    {
        validate_name(name)?;
        validate_name(new_name)?;
        if !source_is_dir {
            return Err(message_quoted("frontier '", name, "' does not exist"));
        }
        if target_exists {
            return Err(message_quoted("frontier '", new_name, "' already exists"));
        }
        let source = self.frontier_dir(name);
        let target = self.frontier_dir(new_name);
        let mut meta = String::from_str("name=");
        meta.append(new_name);
        push_char(&mut meta, '\n');
        let meta_path = path_join_exec(target.as_str(), "meta.txt");
        let mut acts: Vec<FsAction> = Vec::new();
        acts.push(FsAction::Rename(source, target));
        acts.push(FsAction::WriteAtomic(meta_path, meta));
        proof {
            assert(meta@ =~= meta_text(new_name@));
            assert(action_views(acts@) =~= rename_plan(self@, name@, new_name@));
        }
        Ok(acts)
    }

    /// Deletes frontier `name` with everything in it; `is_dir` tells whether
    /// its directory exists. Whether the selection is cleared is decided
    /// afterwards, by `update_selection`.
    pub fn delete_frontier(&self, name: &str, is_dir: bool) -> (r: Result<Vec<FsAction>, NeoError>)
        ensures
            name_error(name@) matches Some(m) ==> (r matches Err(e) && e@ == (ErrorKind::Message, m)),
            name_error(name@) is None && !is_dir ==> (r matches Err(e) && e@ == (
                ErrorKind::Message,
                does_not_exist_text(name@),
            )),
            name_error(name@) is None && is_dir ==> (r matches Ok(acts) && action_views(acts@)
                == seq![FsActionView::RemoveDirAll(frontier_dir_of(self@, name@))]),
    {
        validate_name(name)?;
        if !is_dir {
            return Err(message_quoted("frontier '", name, "' does not exist"));
        }
        let mut acts: Vec<FsAction> = Vec::new();
        acts.push(FsAction::RemoveDirAll(self.frontier_dir(name)));
        proof {
            assert(action_views(acts@) =~= seq![FsActionView::RemoveDirAll(frontier_dir_of(self@, name@))]);
        }
        Ok(acts)
    }

    /// After frontier `name` is renamed (`replacement` is the new name) or
    /// deleted (`replacement` is `None`): moves the selection along if
    /// `current`, the selected frontier, was `name`.
    pub fn update_selection(&self, current: &Option<String>, name: &str, replacement: Option<&str>) -> (acts:
        Vec<FsAction>)
        ensures
            action_views(acts@) == update_selection_plan(
                self@,
                opt_view(*current),
                name@,
                opt_str_view(replacement),
            ),
    {
        let is_selected = match current {
            Some(c) => *c == String::from_str(name),
            None => false,
        };
        if is_selected {
            self.set_current_frontier(replacement)
        } else {
            let acts: Vec<FsAction> = Vec::new();
            proof {
                assert(action_views(acts@) =~= Seq::<FsActionView>::empty());
            }
            acts
        }
    }

    /// The selected frontier, from the content of the selection file
    /// (`None` when the file does not exist).
    pub fn current_frontier(&self, content: Option<String>) -> (r: Option<String>)
        ensures
            opt_view(r) == selected_frontier(opt_view(content)),
    {
        match content {
            Some(c) => {
                let name = trim_string(c.as_str());
                if name.as_str().is_empty() {
                    None
                } else {
                    Some(name)
                }
            },
            None => None,
        }
    }

    /// The selected frontier, which an operation on URLs needs.
    pub fn require_current_frontier(&self, current: Option<String>) -> (r: Result<String, NeoError>)
        ensures
            current matches Some(name) ==> (r matches Ok(n) && n@ == name@),
            current is None ==> (r matches Err(e) && e@ == (ErrorKind::Message, no_active_text())),
    {
        match current {
            Some(name) => Ok(name),
            None => Err(
                NeoError::Message(
                    String::from_str("no active frontier; run `neo frontier start <name>`"),
                ),
            ),
        }
    }

    /// The URLs of a list file, from its content (`None` when the file does not exist).
    pub fn read_frontier(&self, content: Option<String>) -> (urls: Vec<String>)
        ensures
            views(urls@) == stored_urls(opt_view(content)),
    {
        match content {
            Some(c) => parse_lines(c.as_str()),
            None => {
                let urls: Vec<String> = Vec::new();
                proof {
                    assert(views(urls@) =~= Seq::<Seq<char>>::empty());
                }
                urls
            },
        }
    }

    /// Writing a list of URLs to `path`, one per line.
    pub fn write_frontier(&self, path: String, urls: &Vec<String>) -> (act: FsAction)
        ensures
            act@ == FsActionView::WriteAtomic(path@, render_lines(views(urls@))),
    {
        FsAction::WriteAtomic(path, render_urls(urls))
    }

    /// The number of URLs still to read, from the content of the frontier
    /// file (`None` when it does not exist).
    pub fn size(&self, frontier_content: Option<String>) -> (n: usize)
        ensures
            n == stored_urls(opt_view(frontier_content)).len(),
    {
        self.read_frontier(frontier_content).len()
    }

    /// Adds a URL at the back of the frontier and to the library.
    pub fn add_url(&self, url: &str, frontier_urls: &mut Vec<String>, library_urls: &mut Vec<String>) -> (r:
        Result<(), NeoError>)
        ensures
            r is Ok <==> url_is_valid(url@),
            r matches Err(e) ==> e@ == (ErrorKind::Message, url_error_text()) && final(frontier_urls)@
                == old(frontier_urls)@ && final(library_urls)@ == old(library_urls)@,
            r is Ok ==> views(final(frontier_urls)@) == views(old(frontier_urls)@).push(url@)
                && views(final(library_urls)@) == views(old(library_urls)@).push(url@),
    {
        validate_url(url)?;
        frontier_urls.push(String::from_str(url));
        library_urls.push(String::from_str(url));
        proof {
            assert(views(frontier_urls@) =~= views(old(frontier_urls)@).push(url@));
            assert(views(library_urls@) =~= views(old(library_urls)@).push(url@));
        }
        Ok(())
    }

    /// Takes the URL at `index` (the front when `None`) out of frontier
    /// `frontier`'s list `urls`; the library is not touched.
    pub fn pop_url(&self, frontier: &str, urls: &mut Vec<String>, index: Option<usize>) -> (r: Result<
        String,
        NeoError,
    >)
        ensures
            old(urls)@.len() == 0 ==> (r matches Err(e) && e@ == (ErrorKind::Message, empty_text(frontier@))),
            old(urls)@.len() > 0 && pop_position(index) >= old(urls)@.len() ==> (r matches Err(e)
                && e@ == (ErrorKind::Message, out_of_bounds_text(pop_position(index), frontier@))),
            r is Err ==> final(urls)@ == old(urls)@,
            pop_position(index) < old(urls)@.len() ==> (r matches Ok(url) && url@ == old(
                urls,
            )@[pop_position(index) as int]@ && final(urls)@ == old(urls)@.remove(pop_position(index) as int)),
            index matches Some(i) ==> (i < old(urls)@.len() ==> (r matches Ok(url) && url@ == old(
                urls,
            )@[i as int]@ && final(urls)@ == old(urls)@.remove(i as int))),
            index is None && old(urls)@.len() > 0 ==> (r matches Ok(url) && url@ == old(urls)@[0]@
                && final(urls)@ == old(urls)@.remove(0)),
    {
        let i = match index {
            Some(i) => i,
            None => 0,
        };
        if urls.len() == 0 {
            return Err(message_quoted("frontier '", frontier, "' is empty"));
        }
        if i >= urls.len() {
            let mut text = String::from_str("index ");
            push_decimal(&mut text, i as u64);
            text.append(" is out of bounds for frontier '");
            text.append(frontier);
            push_char(&mut text, '\'');
            proof {
                assert(text@ =~= out_of_bounds_text(i as nat, frontier@));
            }
            return Err(NeoError::Message(text));
        }
        Ok(urls.remove(i))
    }

    /// Deletes every copy of a URL from the frontier and the library. The
    /// URL must be in the library.
    pub fn delete_url(
        &self,
        frontier: &str,
        url: &str,
        frontier_urls: &mut Vec<String>,
        library_urls: &mut Vec<String>,
    ) -> (r: Result<(), NeoError>)
        ensures
            !url_is_valid(url@) ==> (r matches Err(e) && e@ == (ErrorKind::Message, url_error_text())),
            url_is_valid(url@) && !views(old(library_urls)@).contains(url@) ==> (r matches Err(e) && e@
                == (ErrorKind::Message, not_found_text(frontier@))),
            url_is_valid(url@) && views(old(library_urls)@).contains(url@) ==> r is Ok,
            r is Err ==> final(frontier_urls)@ == old(frontier_urls)@ && final(library_urls)@ == old(
                library_urls,
            )@,
            r is Ok ==> views(final(library_urls)@) == without(views(old(library_urls)@), url@)
                && views(final(frontier_urls)@) == without(views(old(frontier_urls)@), url@),
    {
        validate_url(url)?;
        let target = String::from_str(url);
        let kept_library = remove_all(library_urls, &target);
        proof {
            lemma_without_len(views(old(library_urls)@), url@);
        }
        if kept_library.len() == library_urls.len() {
            let mut text = String::from_str("url not found in frontier '");
            text.append(frontier);
            push_char(&mut text, '\'');
            proof {
                assert(text@ =~= not_found_text(frontier@));
            }
            return Err(NeoError::Message(text));
        }
        let kept_frontier = remove_all(frontier_urls, &target);
        *library_urls = kept_library;
        *frontier_urls = kept_frontier;
        Ok(())
    }
}

} // verus!

verus! {

impl FrontierRepo {
    /// The frontiers, from the names of the directories under
    /// `<root>/frontiers`, in ascending order.
    pub fn list_frontiers(&self, names: Vec<String>) -> (r: Vec<String>)
        ensures
            is_sorted(views(r@)),
            views(r@).to_multiset() == views(names@).to_multiset(),
    {
        sort_texts(names)
    }
}

/// A line of the frontier listing: `*` before the selected frontier, a
/// space before any other.
pub open spec fn list_line(current: Option<Seq<char>>, name: Seq<char>) -> Seq<char> {
    (if current == Some(name) { seq!['*'] } else { seq![' '] }) + seq![' '] + name + seq!['\n']
}

/// The frontier listing: one line per name, in order.
pub open spec fn list_text(current: Option<Seq<char>>, names: Seq<Seq<char>>) -> Seq<char>
    decreases names.len(),
{
    if names.len() == 0 {
        Seq::empty()
    } else {
        list_text(current, names.drop_last()) + list_line(current, names.last())
    }
}

/// The listing of `names`, marking the selected frontier `current`.
pub fn frontier_list_text(current: &Option<String>, names: &Vec<String>) -> (text: String)
    ensures
        text@ == list_text(opt_view(*current), views(names@)),
{
    let mut text = String::new();
    let mut i: usize = 0;
    while i < names.len()
        invariant
            i <= names.len(),
            text@ == list_text(opt_view(*current), views(names@).take(i as int)),
        decreases names.len() - i,
    {
        let ghost before = text@;
        let marked = match current {
            Some(c) => *c == names[i],
            None => false,
        };
        if marked {
            push_char(&mut text, '*');
        } else {
            push_char(&mut text, ' ');
        }
        push_char(&mut text, ' ');
        text.append(names[i].as_str());
        push_char(&mut text, '\n');
        proof {
            assert(views(names@).take(i + 1).drop_last() =~= views(names@).take(i as int));
            assert(views(names@).take(i + 1).last() == names@[i as int]@);
            assert(text@ =~= before + list_line(opt_view(*current), names@[i as int]@));
        }
        i = i + 1;
    }
    proof {
        assert(views(names@).take(names.len() as int) =~= views(names@));
    }
    text
}

// ---------------------------------------------------------------------------
// Laws

/// A frontier name that reads back as itself from the selection file: not
/// empty, and neither starting nor ending with white space.
pub open spec fn is_plain_name(name: Seq<char>) -> bool {
    &&& name.len() > 0
    &&& !is_white_space(name[0])
    &&& !is_white_space(name.last())
}

/// Selecting a frontier and reading the selection back gives its name.
pub proof fn lemma_selection_round_trip(name: Seq<char>)
    requires
        is_plain_name(name),
    ensures
        selected_frontier(Some(selection_text(name))) == Some(name),
{
    let t = name.push('\n');
    assert(t[0] == name[0]);
    assert(trim_start(t) == t);
    assert(t.drop_last() =~= name);
    assert(is_white_space(t.last()));
    assert(trim_end(t) == trim_end(name));
    assert(trim_end(name) == name);
}

/// Renaming the selected frontier moves the selection to the new name:
/// the selection file is rewritten, and reads back as the new name.
pub proof fn lemma_rename_moves_selection(
    root: Seq<char>,
    content: Option<Seq<char>>,
    name: Seq<char>,
    new_name: Seq<char>,
)
    requires
        selected_frontier(content) == Some(name),
        is_plain_name(new_name),
    ensures
        update_selection_plan(root, selected_frontier(content), name, Some(new_name)) == seq![
            FsActionView::WriteAtomic(current_path_of(root), selection_text(new_name)),
        ],
        selected_frontier(Some(selection_text(new_name))) == Some(new_name),
{
    lemma_selection_round_trip(new_name);
}

/// Deleting the selected frontier clears the selection: the selection file
/// is removed, and no frontier is selected after that.
pub proof fn lemma_delete_clears_selection(root: Seq<char>, content: Option<Seq<char>>, name: Seq<char>)
    requires
        selected_frontier(content) == Some(name),
    ensures
        update_selection_plan(root, selected_frontier(content), name, None) == seq![
            FsActionView::RemoveFileIfExists(current_path_of(root)),
        ],
        selected_frontier(None) is None,
{
}

/// Renaming or deleting a frontier that is not selected leaves the selection alone.
pub proof fn lemma_other_selection_kept(
    root: Seq<char>,
    selected: Option<Seq<char>>,
    name: Seq<char>,
    replacement: Option<Seq<char>>,
)
    requires
        selected != Some(name),
    ensures
        update_selection_plan(root, selected, name, replacement) == Seq::<FsActionView>::empty(),
{
}

/// A frontier is a first-in first-out queue kept on disk: after a URL is
/// added to the stored list and the list is written, reading it back gives
/// the old list with the URL at the back; popping without an index takes
/// the oldest URL, and what is left is written and read back unchanged.
pub proof fn lemma_frontier_fifo(stored: Seq<Seq<char>>, url: Seq<char>)
    requires
        forall|i: int| 0 <= i < stored.len() ==> is_line_safe(#[trigger] stored[i]),
        is_line_safe(url),
    ensures
        stored_urls(Some(render_lines(stored.push(url)))) == stored.push(url),
        stored.push(url)[0] == (if stored.len() == 0 { url } else { stored[0] }),
        stored.push(url).remove(0) == (if stored.len() == 0 {
            Seq::<Seq<char>>::empty()
        } else {
            stored.remove(0).push(url)
        }),
        stored_urls(Some(render_lines(stored.push(url).remove(0)))) == stored.push(url).remove(0),
{
    let after = stored.push(url);
    assert forall|i: int| 0 <= i < after.len() implies is_line_safe(#[trigger] after[i]) by {
        if i < stored.len() {
            assert(after[i] == stored[i]);
        }
    }
    lemma_lines_round_trip(after);
    let rest = after.remove(0);
    assert forall|i: int| 0 <= i < rest.len() implies is_line_safe(#[trigger] rest[i]) by {
        assert(rest[i] == after[i + 1]);
    }
    lemma_lines_round_trip(rest);
    if stored.len() == 0 {
        assert(rest =~= Seq::<Seq<char>>::empty());
    } else {
        assert(rest =~= stored.remove(0).push(url));
    }
}

/// Deleting a URL removes every copy of it and keeps every other URL.
pub proof fn lemma_without_removes_only(lines: Seq<Seq<char>>, x: Seq<char>, y: Seq<char>)
    ensures
        !without(lines, x).contains(x),
        y != x ==> (without(lines, x).contains(y) <==> lines.contains(y)),
    decreases lines.len(),
{
    if lines.len() > 0 {
        let prev = lines.drop_last();
        lemma_without_removes_only(prev, x, y);
        assert(lines =~= prev.push(lines.last()));
        if lines.last() != x {
            let w = without(prev, x);
            assert(without(lines, x) == w.push(lines.last()));
            if w.push(lines.last()).contains(x) {
                let k = choose|k: int| 0 <= k < w.push(lines.last()).len() && w.push(lines.last())[k] == x;
                assert(k < w.len());
                assert(w[k] == x);
            }
            if y != x {
                if lines.contains(y) && !w.contains(y) {
                    let k = choose|k: int| 0 <= k < lines.len() && lines[k] == y;
                    if k < prev.len() {
                        assert(prev[k] == y);
                    }
                    assert(w.push(lines.last())[w.len() as int] == y);
                }
                if w.push(lines.last()).contains(y) && !prev.contains(y) {
                    let k = choose|k: int| 0 <= k < w.push(lines.last()).len() && w.push(lines.last())[k] == y;
                    if k < w.len() {
                        assert(w[k] == y);
                    }
                    assert(lines[lines.len() - 1] == y);
                }
                if prev.contains(y) {
                    let k = choose|k: int| 0 <= k < prev.len() && prev[k] == y;
                    assert(lines[k] == y);
                    if w.contains(y) {
                        let j = choose|j: int| 0 <= j < w.len() && w[j] == y;
                        assert(w.push(lines.last())[j] == y);
                    }
                }
            }
        } else {
            if y != x && lines.contains(y) && !prev.contains(y) {
                let k = choose|k: int| 0 <= k < lines.len() && lines[k] == y;
                if k < prev.len() {
                    assert(prev[k] == y);
                }
            }
            if prev.contains(y) {
                let k = choose|k: int| 0 <= k < prev.len() && prev[k] == y;
                assert(lines[k] == y);
            }
        }
    }
}

/// Removing every entry equal to `x` leaves no copy of `x` and every copy
/// of any other entry.
pub proof fn lemma_without_count(lines: Seq<Seq<char>>, x: Seq<char>, u: Seq<char>)
    ensures
        without(lines, x).to_multiset().count(u) == (if u == x {
            0
        } else {
            lines.to_multiset().count(u)
        }),
    decreases lines.len(),
{
    broadcast use vstd::seq_lib::group_to_multiset_ensures;

    if lines.len() == 0 {
        assert(without(lines, x) == lines);
    } else {
        let prev = lines.drop_last();
        lemma_without_count(prev, x, u);
        assert(lines =~= prev.push(lines.last()));
        assert(lines.to_multiset() =~= prev.to_multiset().insert(lines.last()));
        if lines.last() != x {
            let w = without(prev, x);
            assert(w.push(lines.last()).to_multiset() =~= w.to_multiset().insert(lines.last()));
        }
    }
}

/// Each URL occurs in the frontier list at most as often as in the library list.
pub open spec fn counted_within_library(frontier: Seq<Seq<char>>, library: Seq<Seq<char>>) -> bool {
    forall|u: Seq<char>| #[trigger] frontier.to_multiset().count(u) <= library.to_multiset().count(u)
}

/// No URL occurs more often in a frontier than in its library, and each
/// change that the URL commands make keeps it so: adding a URL to both
/// lists, popping one from the frontier alone, and deleting every copy of a
/// URL from both.
pub proof fn lemma_frontier_counted_within_library(
    frontier: Seq<Seq<char>>,
    library: Seq<Seq<char>>,
    url: Seq<char>,
    i: int,
)
    requires
        counted_within_library(frontier, library),
    ensures
        counted_within_library(frontier.push(url), library.push(url)),
        0 <= i < frontier.len() ==> counted_within_library(frontier.remove(i), library),
        counted_within_library(without(frontier, url), without(library, url)),
        within_library(frontier, library),
{
    broadcast use vstd::seq_lib::group_to_multiset_ensures;

    assert forall|u: Seq<char>| #[trigger] frontier.push(url).to_multiset().count(u) <= library.push(
        url,
    ).to_multiset().count(u) by {
        assert(frontier.to_multiset().count(u) <= library.to_multiset().count(u));
    }
    if 0 <= i < frontier.len() {
        assert forall|u: Seq<char>| #[trigger] frontier.remove(i).to_multiset().count(u)
            <= library.to_multiset().count(u) by {
            assert(frontier.to_multiset().count(u) <= library.to_multiset().count(u));
        }
    }
    assert forall|u: Seq<char>| #[trigger] without(frontier, url).to_multiset().count(u) <= without(
        library,
        url,
    ).to_multiset().count(u) by {
        lemma_without_count(frontier, url, u);
        lemma_without_count(library, url, u);
        assert(frontier.to_multiset().count(u) <= library.to_multiset().count(u));
    }
    assert forall|u: Seq<char>| #[trigger] frontier.contains(u) implies library.contains(u) by {
        assert(frontier.to_multiset().count(u) <= library.to_multiset().count(u));
    }
}

/// Every URL of the frontier list is also in the library list.
pub open spec fn within_library(frontier: Seq<Seq<char>>, library: Seq<Seq<char>>) -> bool {
    forall|u: Seq<char>| #[trigger] frontier.contains(u) ==> library.contains(u)
}

/// Every URL of a frontier is in its library, and each change that the
/// URL commands make keeps it so: adding a URL to both lists, popping one
/// from the frontier alone, and deleting every copy of a URL from both.
pub proof fn lemma_frontier_stays_in_library(
    frontier: Seq<Seq<char>>,
    library: Seq<Seq<char>>,
    url: Seq<char>,
    i: int,
)
    requires
        within_library(frontier, library),
    ensures
        within_library(frontier.push(url), library.push(url)),
        0 <= i < frontier.len() ==> within_library(frontier.remove(i), library),
        within_library(without(frontier, url), without(library, url)),
{
    assert forall|u: Seq<char>| #[trigger] frontier.push(url).contains(u) implies library.push(
        url,
    ).contains(u) by {
        let k = choose|k: int| 0 <= k < frontier.push(url).len() && frontier.push(url)[k] == u;
        if k < frontier.len() {
            assert(frontier[k] == u);
            assert(frontier.contains(u));
            let j = choose|j: int| 0 <= j < library.len() && library[j] == u;
            assert(library.push(url)[j] == u);
        } else {
            assert(library.push(url)[library.len() as int] == u);
        }
    }
    if 0 <= i < frontier.len() {
        assert forall|u: Seq<char>| #[trigger] frontier.remove(i).contains(u) implies library.contains(
            u,
        ) by {
            let k = choose|k: int| 0 <= k < frontier.remove(i).len() && frontier.remove(i)[k] == u;
            if k < i {
                assert(frontier[k] == u);
            } else {
                assert(frontier[k + 1] == u);
            }
            assert(frontier.contains(u));
        }
    }
    assert forall|u: Seq<char>| #[trigger] without(frontier, url).contains(u) implies without(
        library,
        url,
    ).contains(u) by {
        lemma_without_removes_only(frontier, url, u);
        lemma_without_removes_only(library, url, u);
        assert(frontier.contains(u));
    }
}

/// A name that passes `validate_name` is one path component: the frontier's
/// directory is that name directly under `<root>/frontiers`.
pub proof fn lemma_valid_name_is_one_component(root: Seq<char>, name: Seq<char>)
    requires
        name_error(name) is None,
    ensures
        frontier_dir_of(root, name) == frontiers_dir_of(root) + seq!['/'] + name,
        !name.contains('/'),
{
    reveal_strlit("frontiers");
    assert(name[0] != '/') by {
        if name[0] == '/' {
            assert(name.contains('/'));
        }
    }
    let dir = frontiers_dir_of(root);
    assert(dir.len() > 0 && dir.last() == 's') by {
        if root.len() > 0 && root.last() != '/' {
            assert(dir == root + seq!['/'] + "frontiers"@);
            assert(dir.last() == "frontiers"@.last());
        } else {
            assert(dir == root + "frontiers"@);
            assert(dir.last() == "frontiers"@.last());
        }
    }
}


/// Popping takes the entry at the 0-based index given, zero included, and
/// the front of the list when no index is given: popping at index 0 and
/// popping without an index take the same entry.
pub proof fn lemma_pop_takes_given_position(urls: Seq<Seq<char>>, i: usize)
    requires
        (i as int) < urls.len(),
    ensures
        pop_position(Some(i)) == i as nat,
        pop_position(Some(0)) == pop_position(None),
        urls[pop_position(Some(i)) as int] == urls[i as int],
        urls.remove(pop_position(Some(0)) as int) == urls.remove(pop_position(None) as int),
        urls[pop_position(None) as int] == urls.first(),
{
}

/// The frontier listing is one line per name, in the order given; each
/// line is a marker, a space, the name and a newline, and the marker is
/// `*` exactly when the name equals the selected frontier's name (a name
/// that merely begins with it gets a space).
pub proof fn lemma_list_marks_only_the_selected(current: Option<Seq<char>>, names: Seq<Seq<char>>)
    ensures
        names.len() == 0 ==> list_text(current, names) == Seq::<char>::empty(),
        names.len() > 0 ==> list_text(current, names) == list_text(current, names.drop_last()) + seq![
            if current == Some(names.last()) {
                '*'
            } else {
                ' '
            },
            ' ',
        ] + names.last() + seq!['\n'],
        names.len() == 1 ==> (list_text(current, names)[0] == '*' <==> current == Some(names[0])),
        names.len() == 1 ==> list_text(current, names).len() == names[0].len() + 3,
{
    if names.len() > 0 {
        let m = if current == Some(names.last()) { '*' } else { ' ' };
        assert(list_line(current, names.last()) =~= seq![m, ' '] + names.last() + seq!['\n']);
        if names.len() == 1 {
            assert(names.drop_last().len() == 0);
            assert(list_text(current, names.drop_last()) == Seq::<char>::empty());
            assert(list_text(current, names) =~= list_line(current, names.last()));
        }
    }
}


/// A path at or below directory `dir`.
pub open spec fn is_under(path: Seq<char>, dir: Seq<char>) -> bool {
    path == dir || (dir + seq!['/']).is_prefix_of(path)
}

/// The files of a file system, as a map from path to content, after one
/// action is carried out: a write replaces one file, a removal drops one
/// file or everything under a directory, creating directories leaves the
/// files alone, and a rename onto a free path moves everything under the
/// source to the same place under the target.
pub open spec fn files_after_action(files: Map<Seq<char>, Seq<char>>, act: FsActionView) -> Map<
    Seq<char>,
    Seq<char>,
> {
    match act {
        FsActionView::CreateDirAll(_) => files,
        FsActionView::WriteAtomic(p, c) => files.insert(p, c),
        FsActionView::RemoveFileIfExists(p) => files.remove(p),
        FsActionView::RemoveDirAll(d) => Map::new(
            |p: Seq<char>| files.contains_key(p) && !is_under(p, d),
            |p: Seq<char>| files[p],
        ),
        FsActionView::Rename(src, dst) => Map::new(
            |p: Seq<char>|
                if is_under(p, dst) {
                    files.contains_key(src + p.skip(dst.len() as int))
                } else {
                    files.contains_key(p) && !is_under(p, src)
                },
            |p: Seq<char>|
                if is_under(p, dst) {
                    files[src + p.skip(dst.len() as int)]
                } else {
                    files[p]
                },
        ),
    }
}

/// The files after a list of actions is carried out in order.
pub open spec fn files_after(files: Map<Seq<char>, Seq<char>>, acts: Seq<FsActionView>) -> Map<
    Seq<char>,
    Seq<char>,
>
    decreases acts.len(),
{
    if acts.len() == 0 {
        files
    } else {
        files_after_action(files_after(files, acts.drop_last()), acts.last())
    }
}

/// Two valid names whose directories are nested are the same name.
proof fn lemma_sibling_dirs(root: Seq<char>, a: Seq<char>, b: Seq<char>, f: Seq<char>)
    requires
        name_error(a) is None,
        name_error(b) is None,
        is_under(frontier_dir_of(root, a) + seq!['/'] + f, frontier_dir_of(root, b)),
    ensures
        a == b,
{
    lemma_valid_name_is_one_component(root, a);
    lemma_valid_name_is_one_component(root, b);
    let base = frontiers_dir_of(root) + seq!['/'];
    let pa = frontier_dir_of(root, a) + seq!['/'] + f;
    let db = frontier_dir_of(root, b);
    let n: int = base.len() as int;
    assert(frontier_dir_of(root, a) =~= base + a);
    assert(db =~= base + b);
    if pa == db {
        assert(pa[n + a.len()] == '/');
        if a.len() < b.len() {
            assert(b[a.len() as int] == db[n + a.len()]);
            assert(b.contains('/'));
        } else {
            assert(pa.len() > db.len());
        }
    } else {
        let dbs = db + seq!['/'];
        assert(dbs.is_prefix_of(pa));
        assert(forall|i: int| 0 <= i < dbs.len() ==> dbs[i] == pa[i]);
        if b.len() < a.len() {
            assert(dbs[n + b.len()] == '/');
            assert(pa[n + b.len()] == a[b.len() as int]);
            assert(a.contains('/'));
        } else if a.len() < b.len() {
            assert(pa[n + a.len()] == '/');
            assert(dbs[n + a.len()] == b[a.len() as int]);
            assert(b.contains('/'));
        } else {
            assert forall|i: int| 0 <= i < a.len() implies a[i] == b[i] by {
                assert(pa[n + i] == a[i]);
                assert(dbs[n + i] == b[i]);
            }
            assert(a =~= b);
        }
    }
}

/// A file of a frontier's directory: the directory, `/` and the file's name.
proof fn lemma_file_in_dir(root: Seq<char>, name: Seq<char>, file: Seq<char>)
    requires
        name_error(name) is None,
        file.len() > 0,
        file[0] != '/',
    ensures
        path_join(frontier_dir_of(root, name), file) == frontier_dir_of(root, name) + seq!['/'] + file,
{
    lemma_valid_name_is_one_component(root, name);
    let d = frontier_dir_of(root, name);
    assert(d.last() == name.last());
    assert(name.last() != '/') by {
        assert(name[name.len() - 1] == name.last());
    }
}

/// One file under the old directory, named anything but `meta.txt`, after
/// the actions of a rename are carried out.
proof fn lemma_rename_moves_file(
    files: Map<Seq<char>, Seq<char>>,
    root: Seq<char>,
    name: Seq<char>,
    new_name: Seq<char>,
    file: Seq<char>,
)
    requires
        name_error(name) is None,
        name_error(new_name) is None,
        name != new_name,
        file.len() > 0,
        file != "meta.txt"@,
    ensures
        ({
            let after = files_after(files, rename_plan(root, name, new_name));
            let old_path = frontier_dir_of(root, name) + seq!['/'] + file;
            let new_path = frontier_dir_of(root, new_name) + seq!['/'] + file;
            &&& after.contains_key(new_path) == files.contains_key(old_path)
            &&& files.contains_key(old_path) ==> after[new_path] == files[old_path]
            &&& after.get(new_path) == files.get(old_path)
            &&& !after.contains_key(old_path)
        }),
{
    reveal_strlit("meta.txt");
    let plan = rename_plan(root, name, new_name);
    let src = frontier_dir_of(root, name);
    let dst = frontier_dir_of(root, new_name);
    let meta = meta_file_of(root, new_name);
    let moved = files_after_action(files, plan[0]);
    assert(plan.drop_last() =~= seq![plan[0]]);
    assert(seq![plan[0]].drop_last() =~= Seq::<FsActionView>::empty());
    assert(files_after(files, Seq::<FsActionView>::empty()) == files);
    assert(seq![plan[0]].last() == plan[0]);
    assert(files_after(files, seq![plan[0]]) == moved);
    assert(plan.last() == plan[1]);
    let after = files_after(files, plan);
    assert(after == moved.insert(meta, meta_text(new_name)));
    lemma_file_in_dir(root, new_name, "meta.txt"@);
    assert(meta == dst + seq!['/'] + "meta.txt"@);
    let old_path = src + seq!['/'] + file;
    let new_path = dst + seq!['/'] + file;
    assert(new_path != meta) by {
        if new_path == meta {
            assert(file =~= new_path.skip(dst.len() + 1int));
            assert("meta.txt"@ =~= meta.skip(dst.len() + 1int));
        }
    }
    assert(is_under(new_path, dst)) by {
        assert((dst + seq!['/']).is_prefix_of(new_path)) by {
            assert(new_path.subrange(0, dst.len() + 1int) =~= dst + seq!['/']);
        }
    }
    assert(src + new_path.skip(dst.len() as int) =~= old_path);
    assert(!is_under(old_path, dst)) by {
        if is_under(old_path, dst) {
            lemma_sibling_dirs(root, name, new_name, file);
        }
    }
    assert(is_under(old_path, src)) by {
        assert((src + seq!['/']).is_prefix_of(old_path)) by {
            assert(old_path.subrange(0, src.len() + 1int) =~= src + seq!['/']);
        }
    }
    assert(old_path != meta) by {
        if old_path == meta {
            assert(is_under(old_path, dst));
        }
    }
    assert(moved.contains_key(new_path) == files.contains_key(old_path));
    assert(!moved.contains_key(old_path));
}

/// Renaming a frontier moves its directory with every file in it: once the
/// actions of a rename are carried out, every file of the old directory but
/// `meta.txt` is under the new directory with the same content, nothing is
/// left under the old one, and so the URL lists read from the new
/// frontier's `frontier.txt` and `library.txt` are those read from the old
/// frontier's files before the rename.
pub proof fn lemma_rename_moves_the_lists(
    files: Map<Seq<char>, Seq<char>>,
    root: Seq<char>,
    name: Seq<char>,
    new_name: Seq<char>,
    file: Seq<char>,
)
    requires
        name_error(name) is None,
        name_error(new_name) is None,
        name != new_name,
        file.len() > 0,
        file != "meta.txt"@,
    ensures
        ({
            let after = files_after(files, rename_plan(root, name, new_name));
            let old_path = frontier_dir_of(root, name) + seq!['/'] + file;
            let new_path = frontier_dir_of(root, new_name) + seq!['/'] + file;
            &&& after.contains_key(new_path) == files.contains_key(old_path)
            &&& files.contains_key(old_path) ==> after[new_path] == files[old_path]
            &&& !after.contains_key(old_path)
        }),
        ({
            let after = files_after(files, rename_plan(root, name, new_name));
            &&& stored_urls(after.get(frontier_file_of(root, new_name))) == stored_urls(
                files.get(frontier_file_of(root, name)),
            )
            &&& stored_urls(after.get(library_file_of(root, new_name))) == stored_urls(
                files.get(library_file_of(root, name)),
            )
        }),
{
    reveal_strlit("meta.txt");
    reveal_strlit("frontier.txt");
    reveal_strlit("library.txt");
    lemma_rename_moves_file(files, root, name, new_name, file);
    assert("frontier.txt"@ != "meta.txt"@) by {
        assert("frontier.txt"@[0] != "meta.txt"@[0]);
    }
    assert("library.txt"@ != "meta.txt"@) by {
        assert("library.txt"@[0] != "meta.txt"@[0]);
    }
    lemma_file_in_dir(root, name, "frontier.txt"@);
    lemma_file_in_dir(root, new_name, "frontier.txt"@);
    lemma_file_in_dir(root, name, "library.txt"@);
    lemma_file_in_dir(root, new_name, "library.txt"@);
    lemma_rename_moves_file(files, root, name, new_name, "frontier.txt"@);
    lemma_rename_moves_file(files, root, name, new_name, "library.txt"@);
}

} // verus!
