use std::collections::{BTreeMap, BTreeSet};

use neo::cli::Cli;
use neo::error::NeoError;
use neo::frontier::{default_root_dir, frontier_list_text, FrontierRepo, FsAction};
use neo::lines::{parse_lines, render_urls};
use neo::util::validate_url;

/// A file system in memory that carries out the repository's actions.
#[derive(Default)]
struct Disk {
    dirs: BTreeSet<String>,
    files: BTreeMap<String, String>,
}

impl Disk {
    fn has_path(&self, path: &str) -> bool {
        self.dirs.contains(path) || self.files.contains_key(path)
    }

    fn is_dir(&self, path: &str) -> bool {
        self.dirs.contains(path)
    }

    fn read(&self, path: &str) -> Option<String> {
        self.files.get(path).cloned()
    }

    fn create_dir_all(&mut self, path: &str) {
        let mut prefix = String::new();
        for (i, part) in path.split('/').enumerate() {
            if i > 0 {
                prefix.push('/');
            }
            prefix.push_str(part);
            if !prefix.is_empty() {
                self.dirs.insert(prefix.clone());
            }
        }
    }

    fn apply(&mut self, acts: Vec<FsAction>) {
        for act in acts {
            match act {
                FsAction::CreateDirAll(p) => self.create_dir_all(&p),
                FsAction::WriteAtomic(p, c) => {
                    self.files.insert(p, c);
                }
                FsAction::Rename(from, to) => {
                    let inside = format!("{from}/");
                    let dirs: Vec<String> = self.dirs.iter().filter(|d| **d == from || d.starts_with(&inside)).cloned().collect();
                    for d in dirs {
                        self.dirs.remove(&d);
                        self.dirs.insert(format!("{to}{}", &d[from.len()..]));
                    }
                    let files: Vec<String> = self.files.keys().filter(|f| **f == from || f.starts_with(&inside)).cloned().collect();
                    for f in files {
                        let c = self.files.remove(&f).unwrap();
                        self.files.insert(format!("{to}{}", &f[from.len()..]), c);
                    }
                }
                FsAction::RemoveDirAll(p) => {
                    let inside = format!("{p}/");
                    self.dirs.retain(|d| *d != p && !d.starts_with(&inside));
                    self.files.retain(|f, _| *f != p && !f.starts_with(&inside));
                }
                FsAction::RemoveFileIfExists(p) => {
                    self.files.remove(&p);
                }
            }
        }
    }
}

/// A repository on the disk in memory, driven as the program drives one.
struct Session {
    repo: FrontierRepo,
    disk: Disk,
}

impl Session {
    fn open(root: &str) -> Session {
        let (repo, acts) = FrontierRepo::open(root.to_string());
        let mut disk = Disk::default();
        disk.apply(acts);
        Session { repo, disk }
    }

    fn current_frontier(&self) -> Option<String> {
        self.repo.current_frontier(self.disk.read(&self.repo.current_path()))
    }

    fn require(&self) -> Result<String, NeoError> {
        self.repo.require_current_frontier(self.current_frontier())
    }

    fn create_frontier(&mut self, name: &str, switch: bool) -> Result<(), NeoError> {
        let exists = self.disk.has_path(&self.repo.frontier_dir(name));
        let acts = self.repo.create_frontier(name, exists, switch)?;
        self.disk.apply(acts);
        Ok(())
    }

    fn switch_frontier(&mut self, name: &str) -> Result<(), NeoError> {
        let is_dir = self.disk.is_dir(&self.repo.frontier_dir(name));
        let acts = self.repo.switch_frontier(name, is_dir)?;
        self.disk.apply(acts);
        Ok(())
    }

    fn rename_frontier(&mut self, name: &str, new_name: &str) -> Result<(), NeoError> {
        let source = self.disk.is_dir(&self.repo.frontier_dir(name));
        let target = self.disk.has_path(&self.repo.frontier_dir(new_name));
        let acts = self.repo.rename_frontier(name, new_name, source, target)?;
        self.disk.apply(acts);
        let current = self.current_frontier();
        let acts = self.repo.update_selection(&current, name, Some(new_name));
        self.disk.apply(acts);
        Ok(())
    }

    fn delete_frontier(&mut self, name: &str) -> Result<(), NeoError> {
        let is_dir = self.disk.is_dir(&self.repo.frontier_dir(name));
        let acts = self.repo.delete_frontier(name, is_dir)?;
        self.disk.apply(acts);
        let current = self.current_frontier();
        let acts = self.repo.update_selection(&current, name, None);
        self.disk.apply(acts);
        Ok(())
    }

    fn list_frontiers(&self) -> Vec<String> {
        let prefix = format!("{}/", self.repo.frontiers_dir());
        let names: Vec<String> = self
            .disk
            .dirs
            .iter()
            .rev()
            .filter_map(|d| d.strip_prefix(&prefix))
            .filter(|rest| !rest.contains('/'))
            .map(|s| s.to_string())
            .collect();
        self.repo.list_frontiers(names)
    }

    fn add_url(&mut self, url: &str) -> Result<(), NeoError> {
        validate_url(url)?;
        let name = self.require()?;
        let ff = self.repo.frontier_file(&name);
        let lf = self.repo.library_file(&name);
        let mut frontier = self.repo.read_frontier(self.disk.read(&ff));
        let mut library = self.repo.read_frontier(self.disk.read(&lf));
        self.repo.add_url(url, &mut frontier, &mut library)?;
        let acts = vec![self.repo.write_frontier(ff, &frontier), self.repo.write_frontier(lf, &library)];
        self.disk.apply(acts);
        Ok(())
    }

    fn size(&self) -> Result<usize, NeoError> {
        let name = self.require()?;
        Ok(self.repo.size(self.disk.read(&self.repo.frontier_file(&name))))
    }

    fn pop_url(&mut self, index: Option<usize>) -> Result<String, NeoError> {
        let name = self.require()?;
        let ff = self.repo.frontier_file(&name);
        let mut urls = self.repo.read_frontier(self.disk.read(&ff));
        let url = self.repo.pop_url(&name, &mut urls, index)?;
        let act = self.repo.write_frontier(ff, &urls);
        self.disk.apply(vec![act]);
        Ok(url)
    }

    fn delete_url(&mut self, url: &str) -> Result<(), NeoError> {
        validate_url(url)?;
        let name = self.require()?;
        let ff = self.repo.frontier_file(&name);
        let lf = self.repo.library_file(&name);
        let mut library = self.repo.read_frontier(self.disk.read(&lf));
        let mut frontier = self.repo.read_frontier(self.disk.read(&ff));
        self.repo.delete_url(&name, url, &mut frontier, &mut library)?;
        let acts = vec![self.repo.write_frontier(ff, &frontier), self.repo.write_frontier(lf, &library)];
        self.disk.apply(acts);
        Ok(())
    }
}

#[test]
fn frontier_round_trip_is_fifo() {
    let mut repo = Session::open("/tmp/neo-test-fifo");

    repo.create_frontier("reading", true).unwrap();
    repo.add_url("https://example.com/a").unwrap();
    repo.add_url("https://example.com/b").unwrap();

    assert_eq!(repo.pop_url(None).unwrap(), "https://example.com/a");
    assert_eq!(repo.pop_url(None).unwrap(), "https://example.com/b");
}

#[test]
fn popping_url_keeps_it_in_library() {
    let root = "/tmp/neo-test-library-pop";
    let mut repo = Session::open(root);

    repo.create_frontier("reading", true).unwrap();
    repo.add_url("https://example.com/a").unwrap();
    repo.add_url("https://example.com/b").unwrap();
    repo.pop_url(None).unwrap();

    let library = repo.disk.read(&format!("{root}/frontiers/reading/library.txt")).unwrap();
    assert_eq!(library, "https://example.com/a\nhttps://example.com/b\n");
}

#[test]
fn renaming_current_frontier_updates_selection() {
    let mut repo = Session::open("/tmp/neo-test-rename");

    repo.create_frontier("first", true).unwrap();
    repo.rename_frontier("first", "second").unwrap();

    assert_eq!(repo.current_frontier(), Some("second".into()));
    assert_eq!(repo.list_frontiers(), vec!["second".to_string()]);
}

#[test]
fn deleting_current_frontier_clears_selection() {
    let mut repo = Session::open("/tmp/neo-test-delete-frontier");

    repo.create_frontier("active", true).unwrap();
    repo.delete_frontier("active").unwrap();

    assert_eq!(repo.current_frontier(), None);
}

#[test]
fn delete_url_removes_matching_entries() {
    let mut repo = Session::open("/tmp/neo-test-delete-url");

    repo.create_frontier("queue", true).unwrap();
    repo.add_url("https://example.com/a").unwrap();
    repo.add_url("https://example.com/b").unwrap();
    repo.delete_url("https://example.com/a").unwrap();

    assert_eq!(repo.pop_url(None).unwrap(), "https://example.com/b");
}

#[test]
fn delete_url_removes_entry_from_library() {
    let root = "/tmp/neo-test-delete-library";
    let mut repo = Session::open(root);

    repo.create_frontier("queue", true).unwrap();
    repo.add_url("https://example.com/a").unwrap();
    repo.add_url("https://example.com/b").unwrap();
    repo.delete_url("https://example.com/a").unwrap();

    let frontier = repo.disk.read(&format!("{root}/frontiers/queue/frontier.txt")).unwrap();
    let library = repo.disk.read(&format!("{root}/frontiers/queue/library.txt")).unwrap();
    assert_eq!(frontier, "https://example.com/b\n");
    assert_eq!(library, "https://example.com/b\n");
}

#[test]
fn pop_supports_indexed_removal() {
    let mut repo = Session::open("/tmp/neo-test-pop-index");

    repo.create_frontier("queue", true).unwrap();
    repo.add_url("https://example.com/a").unwrap();
    repo.add_url("https://example.com/b").unwrap();
    repo.add_url("https://example.com/c").unwrap();

    assert_eq!(repo.pop_url(Some(1)).unwrap(), "https://example.com/b");
    assert_eq!(repo.pop_url(None).unwrap(), "https://example.com/a");
    assert_eq!(repo.pop_url(None).unwrap(), "https://example.com/c");
}

#[test]
fn pop_rejects_out_of_bounds_index() {
    let mut repo = Session::open("/tmp/neo-test-pop-oob");

    repo.create_frontier("queue", true).unwrap();
    repo.add_url("https://example.com/a").unwrap();

    let err = repo.pop_url(Some(1)).unwrap_err();
    assert_eq!(err.message(), "index 1 is out of bounds for frontier 'queue'");
}

#[test]
fn size_reports_number_of_links() {
    let mut repo = Session::open("/tmp/neo-test-size-output");
    repo.create_frontier("queue", true).unwrap();
    repo.add_url("https://example.com/a").unwrap();
    repo.add_url("https://example.com/b").unwrap();

    let command = Cli::parse(vec!["size".to_string()]).unwrap();
    assert_eq!(command, Cli::Size);
    assert_eq!(format!("{}\n", repo.size().unwrap()), "2\n");
}

#[test]
fn operations_without_a_selection_are_refused() {
    let mut repo = Session::open("/tmp/neo-test-none");
    let err = repo.add_url("https://example.com/a").unwrap_err();
    assert_eq!(err.message(), "no active frontier; run `neo frontier start <name>`");
    let err = repo.add_url("ftp://example.com/a").unwrap_err();
    assert_eq!(err.message(), "url must start with http:// or https://");
    assert!(repo.size().is_err());
}

#[test]
fn pop_from_empty_frontier_is_refused() {
    let mut repo = Session::open("/tmp/neo-test-empty");
    repo.create_frontier("queue", true).unwrap();
    let err = repo.pop_url(Some(3)).unwrap_err();
    assert_eq!(err.message(), "frontier 'queue' is empty");
}

#[test]
fn delete_url_not_in_library_is_refused() {
    let mut repo = Session::open("/tmp/neo-test-missing");
    repo.create_frontier("queue", true).unwrap();
    repo.add_url("https://example.com/a").unwrap();
    let err = repo.delete_url("https://example.com/z").unwrap_err();
    assert_eq!(err.message(), "url not found in frontier 'queue'");
}

#[test]
fn delete_url_removes_every_copy() {
    let mut repo = Session::open("/tmp/neo-test-copies");
    repo.create_frontier("queue", true).unwrap();
    repo.add_url("https://example.com/a").unwrap();
    repo.add_url("https://example.com/b").unwrap();
    repo.add_url("https://example.com/a").unwrap();
    repo.delete_url("https://example.com/a").unwrap();
    assert_eq!(repo.size().unwrap(), 1);
    assert_eq!(repo.pop_url(None).unwrap(), "https://example.com/b");
}

#[test]
fn frontier_names_are_checked() {
    let mut repo = Session::open("/tmp/neo-test-names");
    assert_eq!(repo.create_frontier("", true).unwrap_err().message(), "frontier name cannot be empty");
    assert_eq!(
        repo.create_frontier("a/b", true).unwrap_err().message(),
        "frontier name cannot contain path separators"
    );
    assert_eq!(
        repo.create_frontier("a\\b", true).unwrap_err().message(),
        "frontier name cannot contain path separators"
    );
    repo.create_frontier("a", false).unwrap();
    assert_eq!(repo.create_frontier("a", true).unwrap_err().message(), "frontier 'a' already exists");
    assert_eq!(repo.switch_frontier("b").unwrap_err().message(), "frontier 'b' does not exist");
    assert_eq!(repo.delete_frontier("b").unwrap_err().message(), "frontier 'b' does not exist");
    repo.create_frontier("b", false).unwrap();
    assert_eq!(repo.rename_frontier("a", "b").unwrap_err().message(), "frontier 'b' already exists");
    assert_eq!(repo.rename_frontier("c", "d").unwrap_err().message(), "frontier 'c' does not exist");
}

#[test]
fn create_frontier_writes_its_files() {
    let root = "/tmp/neo-test-create";
    let mut repo = Session::open(root);
    repo.create_frontier("news", false).unwrap();
    let dir = format!("{root}/frontiers/news");
    assert!(repo.disk.is_dir(&dir));
    assert_eq!(repo.disk.read(&format!("{dir}/frontier.txt")).unwrap(), "");
    assert_eq!(repo.disk.read(&format!("{dir}/library.txt")).unwrap(), "");
    assert_eq!(repo.disk.read(&format!("{dir}/meta.txt")).unwrap(), "name=news\n");
    assert_eq!(repo.disk.read(&format!("{dir}/crawl.jsonl")).unwrap(), "");
    assert_eq!(repo.current_frontier(), None);
    repo.switch_frontier("news").unwrap();
    assert_eq!(repo.disk.read(&format!("{root}/current_frontier")).unwrap(), "news\n");
    assert_eq!(repo.current_frontier(), Some("news".to_string()));
}

#[test]
fn renaming_other_frontier_keeps_selection() {
    let root = "/tmp/neo-test-rename-other";
    let mut repo = Session::open(root);
    repo.create_frontier("one", true).unwrap();
    repo.create_frontier("two", false).unwrap();
    repo.rename_frontier("two", "three").unwrap();
    assert_eq!(repo.current_frontier(), Some("one".to_string()));
    assert_eq!(repo.disk.read(&format!("{root}/frontiers/three/meta.txt")).unwrap(), "name=three\n");
    assert_eq!(repo.list_frontiers(), vec!["one".to_string(), "three".to_string()]);
    repo.delete_frontier("three").unwrap();
    assert_eq!(repo.current_frontier(), Some("one".to_string()));
}

#[test]
fn list_frontiers_sorts_names() {
    let repo = FrontierRepo::open("r".to_string()).0;
    let names = vec!["zeta".to_string(), "Alpha".to_string(), "alpha".to_string(), "é".to_string(), "al".to_string()];
    assert_eq!(repo.list_frontiers(names), vec!["Alpha", "al", "alpha", "zeta", "é"]);
}

#[test]
fn list_text_marks_selected_frontier() {
    let names = vec!["a".to_string(), "b".to_string()];
    assert_eq!(frontier_list_text(&Some("b".to_string()), &names), "  a\n* b\n");
    assert_eq!(frontier_list_text(&None, &names), "  a\n  b\n");
}

#[test]
fn paths_join_like_the_platform() {
    let repo = FrontierRepo::open("/data/neo".to_string()).0;
    assert_eq!(repo.frontier_dir("q"), "/data/neo/frontiers/q");
    assert_eq!(repo.frontier_file("q"), "/data/neo/frontiers/q/frontier.txt");
    assert_eq!(repo.library_file("q"), "/data/neo/frontiers/q/library.txt");
    assert_eq!(repo.crawl_file("q"), "/data/neo/frontiers/q/crawl.jsonl");
    assert_eq!(repo.current_path(), "/data/neo/current_frontier");
    assert_eq!(repo.root(), "/data/neo");
    let slash = FrontierRepo::open("/data/".to_string()).0;
    assert_eq!(slash.frontiers_dir(), "/data/frontiers");
    assert_eq!(slash.frontier_dir("/abs"), "/abs");
    let (_, acts) = FrontierRepo::open("/x".to_string());
    assert_eq!(acts, vec![FsAction::CreateDirAll("/x/frontiers".to_string())]);
}

#[test]
fn frontier_file_format_round_trips() {
    let urls = vec!["https://a".to_string(), "https://b".to_string()];
    let text = render_urls(&urls);
    assert_eq!(text, "https://a\nhttps://b\n");
    assert_eq!(parse_lines(&text), urls);
    assert_eq!(render_urls(&Vec::new()), "");
    assert_eq!(parse_lines("a\r\n\n\nb\rc\n\r\nd"), vec!["a", "b\rc", "d"]);
    assert_eq!(parse_lines("x\r"), vec!["x\r"]);
}

#[test]
fn selection_file_is_trimmed() {
    let repo = FrontierRepo::open("r".to_string()).0;
    assert_eq!(repo.current_frontier(Some("  name \t\n".to_string())), Some("name".to_string()));
    assert_eq!(repo.current_frontier(Some(" \n\u{3000}".to_string())), None);
    assert_eq!(repo.current_frontier(None), None);
}

fn stored(repo: &Session, library: bool) -> Vec<String> {
    let name = repo.require().unwrap();
    let path = repo.repo.crawl_source_file(&name, library);
    repo.repo.read_frontier(repo.disk.read(&path))
}

#[test]
fn frontier_urls_stay_in_library() {
    let mut repo = Session::open("/tmp/neo-test-within");
    repo.create_frontier("queue", true).unwrap();
    repo.add_url("https://example.com/a").unwrap();
    repo.add_url("https://example.com/b").unwrap();
    repo.add_url("https://example.com/a").unwrap();
    repo.add_url("https://example.com/c").unwrap();
    let check = |repo: &Session| {
        let library = stored(repo, true);
        for url in stored(repo, false) {
            assert!(library.contains(&url), "{url} is not in the library");
        }
    };
    check(&repo);
    assert_eq!(repo.pop_url(Some(1)).unwrap(), "https://example.com/b");
    check(&repo);
    repo.delete_url("https://example.com/a").unwrap();
    check(&repo);
    assert_eq!(stored(&repo, false), vec!["https://example.com/c".to_string()]);
    assert_eq!(
        stored(&repo, true),
        vec!["https://example.com/b".to_string(), "https://example.com/c".to_string()]
    );
}

#[test]
fn crawl_reads_the_library_or_the_frontier() {
    let repo = FrontierRepo::open("/data/neo".to_string()).0;
    assert_eq!(repo.crawl_source_file("q", true), "/data/neo/frontiers/q/library.txt");
    assert_eq!(repo.crawl_source_file("q", false), "/data/neo/frontiers/q/frontier.txt");
}

fn count(list: &[String], url: &str) -> usize {
    list.iter().filter(|u| u.as_str() == url).count()
}

#[test]
fn frontier_counts_stay_within_library_counts() {
    let mut repo = Session::open("/tmp/neo-test-counts");
    repo.create_frontier("queue", true).unwrap();
    let urls = ["https://example.com/a", "https://example.com/b"];
    let check = |repo: &Session| {
        let library = stored(repo, true);
        let frontier = stored(repo, false);
        for url in urls {
            assert!(count(&frontier, url) <= count(&library, url), "{url} occurs too often");
        }
    };
    repo.add_url(urls[0]).unwrap();
    repo.add_url(urls[1]).unwrap();
    repo.add_url(urls[0]).unwrap();
    check(&repo);
    assert_eq!(repo.pop_url(Some(2)).unwrap(), urls[0]);
    check(&repo);
    assert_eq!(count(&stored(&repo, false), urls[0]), 1);
    assert_eq!(count(&stored(&repo, true), urls[0]), 2);
    repo.delete_url(urls[0]).unwrap();
    check(&repo);
    assert_eq!(count(&stored(&repo, true), urls[0]), 0);
    assert_eq!(stored(&repo, false), vec![urls[1].to_string()]);
}

#[test]
fn root_dir_follows_the_environment() {
    let s = |v: &str| Some(v.to_string());
    assert_eq!(default_root_dir(s("/data/neo"), s("/xdg"), s("/home/u")).unwrap(), "/data/neo");
    assert_eq!(default_root_dir(None, s("/xdg"), s("/home/u")).unwrap(), "/xdg/neo");
    assert_eq!(default_root_dir(None, s("/xdg/"), None).unwrap(), "/xdg/neo");
    assert_eq!(default_root_dir(None, s(""), None).unwrap(), "neo");
    assert_eq!(default_root_dir(None, None, s("/home/u")).unwrap(), "/home/u/.local/share/neo");
    assert_eq!(default_root_dir(s(""), None, None).unwrap(), "");
    let err = default_root_dir(None, None, None).unwrap_err();
    assert_eq!(err, NeoError::Message("HOME is not set".to_string()));
}
