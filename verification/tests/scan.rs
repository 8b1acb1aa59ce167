use std::collections::BTreeMap;
use std::collections::BTreeSet;

use uetool::scan::collector::CollectAction;
use uetool::scan::collector::Collector;
use uetool::scan::driver::RootDriver;
use uetool::scan::entry::Child;
use uetool::scan::entry::ChildKind;
use uetool::scan::entry::Entry;
use uetool::scan::entry::EntryIoError;
use uetool::scan::entry::FileId;
use uetool::scan::entry::Instruction;
use uetool::scan::entry::ScanConfig;
use uetool::scan::entry::Sighting;
use uetool::scan::entry::Verdict;
use uetool::scan::ledger::ActionError;
use uetool::scan::ledger::ActionFailure;
use uetool::scan::ledger::Item;
use uetool::scan::ledger::Ledger;
use uetool::scan::ledger::Outcome;
use uetool::scan::locator::LocateAction;
use uetool::scan::locator::Locator;
use uetool::scan::phase::Phase;
use uetool::scan::token::CancelToken;
use uetool::scan::token::OnceSlot;
use uetool::scan::walker::WalkAction;
use uetool::scan::walker::Walker;

/// A tree in memory that answers what a scan asks of a file system.
struct Tree {
    dirs: BTreeMap<String, BTreeSet<String>>,
    files: BTreeSet<String>,
    links: BTreeMap<String, String>,
    unreadable: BTreeSet<String>,
    ids: BTreeMap<String, u64>,
    listed: Vec<String>,
}

impl Tree {
    fn new() -> Tree {
        Tree {
            dirs: BTreeMap::new(),
            files: BTreeSet::new(),
            links: BTreeMap::new(),
            unreadable: BTreeSet::new(),
            ids: BTreeMap::new(),
            listed: Vec::new(),
        }
    }

    fn parent(path: &str) -> Option<String> {
        let cut = path.rfind('/')?;
        if cut == 0 {
            if path.len() > 1 {
                Some("/".to_string())
            } else {
                None
            }
        } else {
            Some(path[..cut].to_string())
        }
    }

    fn attach(&mut self, path: &str) {
        if let Some(parent) = Tree::parent(path) {
            self.dir(&parent);
            self.dirs.get_mut(&parent).unwrap().insert(path.to_string());
        }
    }

    fn dir(&mut self, path: &str) -> &mut Tree {
        if !self.dirs.contains_key(path) {
            self.dirs.insert(path.to_string(), BTreeSet::new());
            let id = self.ids.len() as u64 + 1;
            self.ids.insert(path.to_string(), id);
            self.attach(path);
        }
        self
    }

    fn file(&mut self, path: &str) -> &mut Tree {
        self.files.insert(path.to_string());
        self.attach(path);
        self
    }

    /// A symbolic link at `path` to the directory `target`.
    fn link(&mut self, path: &str, target: &str) -> &mut Tree {
        self.dir(target);
        self.links.insert(path.to_string(), target.to_string());
        self.attach(path);
        self
    }

    /// A node that cannot be examined.
    fn broken(&mut self, path: &str) -> &mut Tree {
        self.unreadable.insert(path.to_string());
        self.attach(path);
        self
    }

    /// A directory that cannot be listed.
    fn locked(&mut self, path: &str) -> &mut Tree {
        self.dir(path);
        self.unreadable.insert(path.to_string());
        self
    }

    /// Where `path` leads once every link in it is resolved.
    fn resolve(&self, path: &str) -> String {
        let mut best: Option<(&String, &String)> = None;
        for (link, target) in &self.links {
            if path == link || path.starts_with(&format!("{}/", link)) {
                if best.map_or(true, |(found, _)| link.len() > found.len()) {
                    best = Some((link, target));
                }
            }
        }
        match best {
            Some((link, target)) => self.resolve(&format!("{}{}", target, &path[link.len()..])),
            None => path.to_string(),
        }
    }

    fn child(&self, path: &str) -> Child {
        let real = self.resolve(path);
        let kind = if self.dirs.contains_key(&real) {
            ChildKind::Directory {
                symlink: self.links.contains_key(path),
                identity: FileId { device: 1, index: self.ids[&real] },
            }
        } else if self.unreadable.contains(&real) {
            ChildKind::Unreadable
        } else {
            ChildKind::File
        };
        Child { path: path.to_string(), name: name_of(path), kind }
    }

    fn present(&self, path: &str) -> bool {
        let real = self.resolve(path);
        self.dirs.contains_key(&real) || self.files.contains(&real)
            || self.unreadable.contains(&real)
    }

    fn probe(&self, path: &str) -> Option<Child> {
        if self.present(path) {
            Some(self.child(path))
        } else {
            None
        }
    }

    fn list(&mut self, path: &str) -> Option<Vec<Child>> {
        self.listed.push(path.to_string());
        let real = self.resolve(path);
        if self.unreadable.contains(&real) {
            return None;
        }
        let names = self.dirs.get(&real)?;
        let mut children = Vec::new();
        for name in names {
            let shown = format!("{}{}", path, &name[real.len()..]);
            children.push(self.child(&shown));
        }
        Some(children)
    }
}

/// A small tree: two directories, three files, one directory nested.
fn clean_tree() -> Tree {
    let mut tree = Tree::new();
    tree.file("/r/a/keep.txt").file("/r/a/ignore.me").file("/r/b/ignored_dir/x.txt");
    tree
}

fn config(max_depth: usize) -> ScanConfig {
    ScanConfig::new(max_depth, false, 1)
}

fn entry(path: &str, is_directory: bool) -> Entry {
    Entry { path: path.to_string(), name: name_of(path), is_directory }
}

fn name_of(path: &str) -> Option<String> {
    std::path::Path::new(path).file_name().map(|name| name.to_string_lossy().to_string())
}


fn path_of(sighting: &Sighting) -> String {
    match sighting {
        Sighting::Entry(entry) => entry.path.clone(),
        Sighting::Failure(error) => error.path.clone(),
    }
}

/// Runs a walk to its end and returns what was shown, with the depths.
fn walk(
    tree: &mut Tree,
    root: &str,
    config: ScanConfig,
    mut visit: impl FnMut(&Sighting, usize) -> Instruction,
) -> Vec<(String, usize)> {
    let mut walker = Walker::new(config, tree.child(root));
    let mut shown = Vec::new();
    let mut steps = 0;
    loop {
        steps += 1;
        assert!(steps < 10_000, "the walk does not end");
        match walker.next() {
            WalkAction::Visit { sighting, depth } => {
                shown.push((path_of(&sighting), depth));
                walker.answer(visit(&sighting, depth));
            }
            WalkAction::List { path } => {
                let listing = tree.list(&path);
                walker.supply(listing);
            }
            WalkAction::Finished => break,
        }
    }
    assert!(walker.is_finished());
    shown
}

fn paths(shown: &[(String, usize)]) -> Vec<&str> {
    shown.iter().map(|(path, _)| path.as_str()).collect()
}

fn depth_in_tree(root: &str, path: &str) -> usize {
    path[root.len()..].matches('/').count()
}

#[test]
fn walk_shows_every_entry_once() {
    let mut tree = clean_tree();
    let shown = walk(&mut tree, "/r", config(10), |_, _| Instruction::Continue);
    assert_eq!(
        paths(&shown),
        vec![
            "/r",
            "/r/a",
            "/r/b",
            "/r/a/ignore.me",
            "/r/a/keep.txt",
            "/r/b/ignored_dir",
            "/r/b/ignored_dir/x.txt",
        ]
    );
}

#[test]
fn walk_reports_depth_as_steps_below_the_root() {
    let mut tree = clean_tree();
    let shown = walk(&mut tree, "/r", config(10), |_, _| Instruction::Continue);
    for (path, depth) in &shown {
        assert_eq!(*depth, depth_in_tree("/r", path), "path {}", path);
    }
}

#[test]
fn depth_bound_zero_shows_only_the_root() {
    let mut tree = clean_tree();
    let shown = walk(&mut tree, "/r", config(0), |_, _| Instruction::Continue);
    assert_eq!(shown, vec![("/r".to_string(), 0)]);
    assert!(tree.listed.is_empty());
}

#[test]
fn depth_bound_holds_for_every_limit() {
    for limit in [0usize, 1, 2, 3, 4, usize::MAX] {
        let mut tree = clean_tree();
        let shown = walk(&mut tree, "/r", config(limit), |_, _| Instruction::Continue);
        for (path, depth) in &shown {
            assert!(*depth <= limit, "{} shown at depth {} under limit {}", path, depth, limit);
        }
        let expected = [1usize, 3, 6, 7, 7, 7][[0usize, 1, 2, 3, 4, usize::MAX]
            .iter()
            .position(|l| *l == limit)
            .unwrap()];
        assert_eq!(shown.len(), expected, "limit {}", limit);
    }
}

#[test]
fn directories_at_the_limit_are_shown_but_not_listed() {
    let mut tree = clean_tree();
    let shown = walk(&mut tree, "/r", config(1), |_, _| Instruction::Continue);
    assert_eq!(paths(&shown), vec!["/r", "/r/a", "/r/b"]);
    assert_eq!(tree.listed, vec!["/r".to_string()]);
}

#[test]
fn skip_subtree_prunes_descent() {
    let mut tree = clean_tree();
    let shown = walk(&mut tree, "/r", config(10), |sighting, _| {
        if path_of(sighting) == "/r/b" {
            Instruction::SkipSubtree
        } else {
            Instruction::Continue
        }
    });
    assert_eq!(paths(&shown), vec!["/r", "/r/a", "/r/b", "/r/a/ignore.me", "/r/a/keep.txt"]);
    assert!(!tree.listed.contains(&"/r/b".to_string()));
}

#[test]
fn quit_ends_the_walk_at_once() {
    let mut tree = clean_tree();
    let shown = walk(&mut tree, "/r", config(10), |sighting, _| {
        if path_of(sighting) == "/r/a" {
            Instruction::Quit
        } else {
            Instruction::Continue
        }
    });
    assert_eq!(paths(&shown), vec!["/r", "/r/a"]);
}

#[test]
fn quit_on_the_root_shows_nothing_else() {
    let mut tree = clean_tree();
    let shown = walk(&mut tree, "/r", config(10), |_, _| Instruction::Quit);
    assert_eq!(paths(&shown), vec!["/r"]);
    assert!(tree.listed.is_empty());
}

#[test]
fn a_root_that_is_a_file_is_shown_alone() {
    let mut tree = clean_tree();
    let shown = walk(&mut tree, "/r/a/keep.txt", config(10), |_, _| Instruction::Continue);
    assert_eq!(shown, vec![("/r/a/keep.txt".to_string(), 0)]);
}

#[test]
fn an_unreadable_child_is_shown_as_failure_and_passed() {
    let mut tree = clean_tree();
    tree.broken("/r/a/broken");
    let mut failures = Vec::new();
    let shown = walk(&mut tree, "/r", config(10), |sighting, _| {
        if let Sighting::Failure(error) = sighting {
            failures.push(error.clone());
        }
        Instruction::Continue
    });
    assert_eq!(failures, vec![EntryIoError { path: "/r/a/broken".to_string() }]);
    assert_eq!(shown.len(), 8);
    assert!(paths(&shown).contains(&"/r/b/ignored_dir/x.txt"));
}

#[test]
fn a_directory_that_cannot_be_listed_is_shown_as_failure_at_its_place() {
    let mut tree = clean_tree();
    tree.locked("/r/b");
    let mut failures = Vec::new();
    let shown = walk(&mut tree, "/r", config(10), |sighting, depth| {
        if let Sighting::Failure(error) = sighting {
            failures.push((error.path.clone(), depth));
        }
        Instruction::Continue
    });
    assert_eq!(failures, vec![("/r/b".to_string(), 1)]);
    assert_eq!(
        paths(&shown),
        vec!["/r", "/r/a", "/r/b", "/r/a/ignore.me", "/r/a/keep.txt", "/r/b"]
    );
}

#[test]
fn links_are_shown_but_not_followed_by_default() {
    let mut tree = clean_tree();
    tree.link("/r/a/link", "/r/b");
    let shown = walk(&mut tree, "/r", config(10), |_, _| Instruction::Continue);
    assert!(paths(&shown).contains(&"/r/a/link"));
    assert!(!paths(&shown).contains(&"/r/a/link/ignored_dir"));
}

#[test]
fn followed_links_are_descended_into() {
    let mut tree = clean_tree();
    tree.link("/r/a/link", "/r/b");
    let shown = walk(&mut tree, "/r", ScanConfig::new(10, true, 1), |_, _| Instruction::Continue);
    assert!(paths(&shown).contains(&"/r/a/link/ignored_dir"));
    assert!(paths(&shown).contains(&"/r/a/link/ignored_dir/x.txt"));
}

#[test]
fn a_link_back_onto_the_path_of_descent_is_not_followed() {
    let mut tree = clean_tree();
    tree.link("/r/a/up", "/r");
    let shown = walk(&mut tree, "/r", ScanConfig::new(50, true, 1), |_, _| Instruction::Continue);
    assert!(paths(&shown).contains(&"/r/a/up"));
    assert!(!paths(&shown).iter().any(|path| path.starts_with("/r/a/up/")));
    assert_eq!(shown.len(), 8);
}

#[test]
fn a_link_to_the_directory_it_stands_in_is_not_followed() {
    let mut tree = clean_tree();
    tree.link("/r/a/self", "/r/a");
    let shown = walk(&mut tree, "/r", ScanConfig::new(50, true, 1), |_, _| Instruction::Continue);
    assert!(!paths(&shown).iter().any(|path| path.starts_with("/r/a/self/")));
}

#[test]
fn a_root_that_is_a_link_is_descended_into() {
    let mut tree = clean_tree();
    tree.link("/entry", "/r");
    let shown = walk(&mut tree, "/entry", config(1), |_, _| Instruction::Continue);
    assert_eq!(paths(&shown), vec!["/entry", "/entry/a", "/entry/b"]);
}

#[test]
fn answers_that_nothing_asked_for_change_nothing() {
    let mut tree = clean_tree();
    let mut walker = Walker::new(config(10), tree.child("/r"));
    walker.answer(Instruction::Quit);
    walker.supply(Some(vec![tree.child("/r/a")]));
    assert_eq!(walker.shown(), None);
    let first = walker.next();
    assert_eq!(
        first,
        WalkAction::Visit { sighting: Sighting::Entry(entry("/r", true)), depth: 0 }
    );
    assert_eq!(walker.shown(), Some(Sighting::Entry(entry("/r", true))));
    assert_eq!(walker.next(), first);
    walker.supply(None);
    assert_eq!(walker.next(), first);
    walker.answer(Instruction::Continue);
    let second = walker.next();
    assert_eq!(second, WalkAction::List { path: "/r".to_string() });
    walker.answer(Instruction::Quit);
    assert_eq!(walker.next(), second);
    assert_eq!(walker.max_depth(), 10);
    assert!(!walker.is_finished());
}

#[test]
fn token_is_a_latch() {
    let mut token = CancelToken::new();
    assert!(!token.is_cancelled());
    token.cancel();
    assert!(token.is_cancelled());
    token.cancel();
    assert!(token.is_cancelled());
}

#[test]
fn slot_keeps_the_first_value() {
    let mut slot: OnceSlot<u32> = OnceSlot::new();
    assert_eq!(slot.peek(), None);
    assert!(slot.publish(7));
    assert!(!slot.publish(9));
    assert_eq!(slot.peek(), Some(&7));
    assert_eq!(slot.into_inner(), Some(7));
}

#[test]
fn driver_hands_out_roots_in_order() {
    let token = CancelToken::new();
    let mut driver = RootDriver::new(vec!["/x".to_string(), "/y".to_string()]);
    assert_eq!(driver.current(), None);
    assert_eq!(driver.remaining(), 2);
    assert_eq!(driver.next_root(&token), Some("/x".to_string()));
    assert_eq!(driver.current(), Some("/x".to_string()));
    assert_eq!(driver.next_root(&token), Some("/y".to_string()));
    assert_eq!(driver.remaining(), 0);
    assert_eq!(driver.next_root(&token), None);
    assert_eq!(driver.current(), Some("/y".to_string()));
}

#[test]
fn driver_hands_out_nothing_once_cancelled() {
    let mut token = CancelToken::new();
    let mut driver = RootDriver::new(vec!["/x".to_string(), "/y".to_string()]);
    assert_eq!(driver.next_root(&token), Some("/x".to_string()));
    token.cancel();
    assert_eq!(driver.next_root(&token), None);
    assert_eq!(driver.remaining(), 1);
}

#[test]
fn phases_advance_in_one_direction() {
    let all = [Phase::Idle, Phase::Scanning, Phase::Cancelling, Phase::Draining, Phase::Done];
    assert!(Phase::Idle.allows(Phase::Scanning));
    assert!(Phase::Scanning.allows(Phase::Cancelling));
    assert!(Phase::Scanning.allows(Phase::Draining));
    assert!(Phase::Scanning.allows(Phase::Done));
    assert!(Phase::Cancelling.allows(Phase::Done));
    assert!(Phase::Draining.allows(Phase::Done));
    assert!(!Phase::Idle.allows(Phase::Done));
    assert!(!Phase::Cancelling.allows(Phase::Draining));
    assert!(!Phase::Draining.allows(Phase::Cancelling));
    for phase in all {
        assert!(phase.allows(phase));
        assert_eq!(Phase::Done.allows(phase), phase == Phase::Done);
        assert_eq!(phase.allows(Phase::Idle), phase == Phase::Idle);
        assert_eq!(phase.is_terminal(), phase == Phase::Done);
    }
}

/// Runs a locating scan to its end; `accepts` is the predicate.
fn locate(
    tree: &mut Tree,
    roots: &[&str],
    config: ScanConfig,
    accepts: impl Fn(&Entry) -> Verdict,
) -> (Option<Entry>, Vec<String>) {
    let mut locator = Locator::new(roots.iter().map(|root| root.to_string()).collect(), config);
    assert_eq!(locator.phase(), Phase::Idle);
    let mut judged = Vec::new();
    let mut steps = 0;
    loop {
        steps += 1;
        assert!(steps < 10_000, "the scan does not end");
        match locator.next() {
            LocateAction::Probe { root } => locator.root(tree.probe(&root)),
            LocateAction::List { path } => {
                let listing = tree.list(&path);
                locator.listing(listing);
            }
            LocateAction::Evaluate { entry, depth } => {
                assert!(depth <= config.max_depth);
                assert!(locator.judging());
                judged.push(entry.path.clone());
                locator.verdict(accepts(&entry));
            }
            LocateAction::Report { .. } => {}
            LocateAction::Done { found } => {
                assert_eq!(locator.phase(), Phase::Done);
                assert_eq!(locator.next(), LocateAction::Done { found: found.clone() });
                return (found, judged);
            }
        }
    }
}

fn marker(entry: &Entry) -> Verdict {
    if entry.is_directory && entry.path.ends_with("/Marker") {
        Verdict::Accept
    } else {
        Verdict::Reject
    }
}

fn two_roots() -> Tree {
    let mut tree = Tree::new();
    tree.file("/x/a/b/readme.txt").file("/x/c/notes.txt");
    tree.file("/y/d/e/Marker/inside.txt").file("/y/f/other.txt");
    tree
}

#[test]
fn locate_finds_the_directory_under_the_second_root() {
    let mut tree = two_roots();
    let (found, _) = locate(&mut tree, &["/x", "/y"], config(10), marker);
    assert_eq!(found, Some(entry("/y/d/e/Marker", true)));
}

#[test]
fn locate_result_does_not_depend_on_thread_count() {
    for threads in [1usize, 2, 16] {
        let mut tree = two_roots();
        let settings = ScanConfig::new(10, false, threads);
        assert_eq!(settings.thread_count, threads);
        let (found, _) = locate(&mut tree, &["/x", "/y"], settings, marker);
        assert_eq!(found, Some(entry("/y/d/e/Marker", true)), "threads {}", threads);
    }
}

#[test]
fn locate_without_match_ends_with_nothing() {
    let mut tree = two_roots();
    let (found, judged) = locate(&mut tree, &["/x", "/y"], config(10), |_| Verdict::Reject);
    assert_eq!(found, None);
    assert_eq!(judged.len(), 13);
}

#[test]
fn locate_without_roots_ends_with_nothing() {
    let mut tree = two_roots();
    let (found, judged) = locate(&mut tree, &[], config(10), marker);
    assert_eq!(found, None);
    assert!(judged.is_empty());
}

#[test]
fn locate_skips_roots_that_do_not_exist() {
    let mut tree = two_roots();
    let (found, judged) = locate(&mut tree, &["/nowhere", "/y", "/gone"], config(10), marker);
    assert_eq!(found, Some(entry("/y/d/e/Marker", true)));
    assert!(judged.iter().all(|path| path.starts_with("/y")));
}

#[test]
fn locate_stops_all_work_at_the_first_match() {
    let mut tree = two_roots();
    tree.file("/z/Marker/late.txt");
    let (found, judged) = locate(&mut tree, &["/y", "/x", "/z"], config(10), marker);
    assert_eq!(found, Some(entry("/y/d/e/Marker", true)));
    assert_eq!(judged.last().map(|path| path.as_str()), Some("/y/d/e/Marker"));
    assert!(!tree.listed.iter().any(|path| path.starts_with("/x") || path.starts_with("/z")));
    assert!(!tree.listed.contains(&"/y/d/e/Marker".to_string()));
}

#[test]
fn locate_respects_the_depth_limit() {
    let mut tree = two_roots();
    let (found, _) = locate(&mut tree, &["/x", "/y"], config(2), marker);
    assert_eq!(found, None);
    let mut tree = two_roots();
    let (found, _) = locate(&mut tree, &["/x", "/y"], config(3), marker);
    assert_eq!(found, Some(entry("/y/d/e/Marker", true)));
}

#[test]
fn locate_reject_subtree_leaves_the_children_alone() {
    let mut tree = two_roots();
    let (found, judged) = locate(&mut tree, &["/y"], config(10), |entry| {
        if entry.path == "/y/d" {
            Verdict::RejectSubtree
        } else {
            marker(entry)
        }
    });
    assert_eq!(found, None);
    assert!(!judged.iter().any(|path| path.starts_with("/y/d/")));
}

#[test]
fn locate_reports_failures_and_goes_on() {
    let mut tree = two_roots();
    tree.locked("/y/f");
    let mut locator = Locator::new(vec!["/y".to_string()], config(10));
    let mut reported = Vec::new();
    let found = loop {
        match locator.next() {
            LocateAction::Probe { root } => locator.root(tree.probe(&root)),
            LocateAction::List { path } => {
                let listing = tree.list(&path);
                locator.listing(listing);
            }
            LocateAction::Evaluate { entry, .. } => locator.verdict(marker(&entry)),
            LocateAction::Report { error } => reported.push(error.path),
            LocateAction::Done { found } => break found,
        }
    };
    assert_eq!(reported, vec!["/y/f".to_string()]);
    assert_eq!(found, Some(entry("/y/d/e/Marker", true)));
}

#[test]
fn locate_passes_through_its_phases() {
    let mut tree = two_roots();
    let mut locator = Locator::new(vec!["/y".to_string()], config(10));
    assert_eq!(locator.phase(), Phase::Idle);
    assert!(!locator.judging());
    locator.verdict(Verdict::Accept);
    locator.listing(None);
    locator.root(None);
    assert_eq!(locator.phase(), Phase::Idle);
    assert_eq!(locator.next(), LocateAction::Probe { root: "/y".to_string() });
    assert_eq!(locator.next(), LocateAction::Probe { root: "/y".to_string() });
    assert_eq!(locator.phase(), Phase::Scanning);
    locator.root(tree.probe("/y"));
    assert_eq!(locator.next(), LocateAction::Evaluate { entry: entry("/y", true), depth: 0 });
    locator.verdict(Verdict::Accept);
    assert_eq!(locator.phase(), Phase::Cancelling);
    locator.verdict(Verdict::Reject);
    assert_eq!(locator.next(), LocateAction::Done { found: Some(entry("/y", true)) });
    assert_eq!(locator.phase(), Phase::Done);
}

/// What a collecting scan left behind.
struct Collected {
    lines: Vec<Item>,
    forwarded: Vec<String>,
    classified: Vec<String>,
}

/// Runs a collecting scan against a channel of the given capacity whose
/// consumer works only when the channel is full or the walk is over.
fn collect(
    tree: &mut Tree,
    root: &str,
    config: ScanConfig,
    capacity: usize,
    close_after: Option<usize>,
    matcher: impl Fn(&Entry) -> Verdict,
    mut action: impl FnMut(&mut Tree, &Entry) -> Result<(), ActionError>,
) -> Collected {
    let mut collector = Collector::new(config, tree.child(root));
    assert_eq!(collector.phase(), Phase::Idle);
    assert_eq!(collector.report(), None);
    let mut channel: Vec<(usize, Entry)> = Vec::new();
    let mut forwarded = Vec::new();
    let mut classified = Vec::new();
    let mut steps = 0;
    loop {
        steps += 1;
        assert!(steps < 10_000, "the scan does not end");
        match collector.next() {
            CollectAction::List { path } => {
                let listing = tree.list(&path);
                collector.listing(listing);
            }
            CollectAction::Classify { entry, depth } => {
                assert!(depth <= config.max_depth);
                classified.push(entry.path.clone());
                collector.verdict(matcher(&entry));
            }
            CollectAction::Forward { item, entry } => {
                assert_eq!(item, collector.lines());
                if close_after.map_or(false, |limit| forwarded.len() >= limit) {
                    collector.forwarded(false);
                    continue;
                }
                if channel.len() == capacity {
                    let (line, waiting) = channel.remove(0);
                    let result = action(tree, &waiting);
                    assert!(collector.completed(line, result));
                }
                assert!(channel.len() < capacity);
                forwarded.push(entry.path.clone());
                channel.push((item, entry));
                collector.forwarded(true);
            }
            CollectAction::Report { .. } => {}
            CollectAction::Drain => {
                assert_eq!(collector.phase(), Phase::Draining);
                assert_eq!(collector.report(), None);
                assert!(!channel.is_empty());
                let (line, waiting) = channel.remove(0);
                let result = action(tree, &waiting);
                assert!(collector.completed(line, result));
            }
            CollectAction::Done => break,
        }
    }
    assert_eq!(collector.phase(), Phase::Done);
    assert!(channel.is_empty());
    let lines = collector.report().expect("a scan that is done has its report");
    Collected { lines, forwarded, classified }
}

fn ignored(entry: &Entry) -> Verdict {
    if entry.path.ends_with("/ignore.me") || (entry.is_directory
        && entry.path.ends_with("/ignored_dir"))
    {
        Verdict::Accept
    } else {
        Verdict::Reject
    }
}

fn succeed(_: &mut Tree, _: &Entry) -> Result<(), ActionError> {
    Ok(())
}

#[test]
fn collect_forwards_what_the_matcher_accepts() {
    let mut tree = clean_tree();
    let collected = collect(&mut tree, "/r", config(10), 32, None, ignored, succeed);
    assert_eq!(
        collected.forwarded,
        vec!["/r/a/ignore.me".to_string(), "/r/b/ignored_dir".to_string()]
    );
    assert_eq!(
        collected.lines,
        vec![
            Item { entry: entry("/r/a/ignore.me", false), outcome: Outcome::Succeeded },
            Item { entry: entry("/r/b/ignored_dir", true), outcome: Outcome::Succeeded },
        ]
    );
}

#[test]
fn directory_match_prunes_descent() {
    let mut tree = clean_tree();
    tree.file("/r/b/ignored_dir/deep/ignore.me");
    let collected = collect(&mut tree, "/r", config(10), 32, None, ignored, succeed);
    assert!(!collected.classified.iter().any(|path| path.starts_with("/r/b/ignored_dir/")));
    assert!(!collected.forwarded.iter().any(|path| path.starts_with("/r/b/ignored_dir/")));
    assert!(!tree.listed.contains(&"/r/b/ignored_dir".to_string()));
    assert_eq!(collected.lines.len(), 2);
}

#[test]
fn backpressure_loses_no_accepted_entry() {
    let mut tree = Tree::new();
    for index in 0..20 {
        tree.file(&format!("/r/d{}/ignore.me", index));
        tree.file(&format!("/r/d{}/keep.txt", index));
    }
    let collected = collect(&mut tree, "/r", config(10), 1, None, ignored, succeed);
    assert_eq!(collected.forwarded.len(), 20);
    assert_eq!(collected.lines.len(), 20);
    for (line, path) in collected.lines.iter().zip(collected.forwarded.iter()) {
        assert_eq!(&line.entry.path, path);
        assert_eq!(line.outcome, Outcome::Succeeded);
    }
    let mut seen: Vec<&String> = collected.forwarded.iter().collect();
    seen.sort();
    seen.dedup();
    assert_eq!(seen.len(), 20);
}

#[test]
fn a_closed_channel_marks_the_entry_as_dropped_and_stops_the_walk() {
    let mut tree = Tree::new();
    for index in 0..5 {
        tree.file(&format!("/r/d{}/ignore.me", index));
    }
    let collected = collect(&mut tree, "/r", config(10), 1, Some(2), ignored, succeed);
    assert_eq!(collected.forwarded.len(), 2);
    assert_eq!(collected.lines.len(), 3);
    assert_eq!(collected.lines[0].outcome, Outcome::Succeeded);
    assert_eq!(collected.lines[1].outcome, Outcome::Succeeded);
    assert_eq!(collected.lines[2].outcome, Outcome::Dropped);
    assert_eq!(collected.lines[2].entry, entry("/r/d2/ignore.me", false));
    assert_eq!(collected.classified.last().map(|p| p.as_str()), Some("/r/d2/ignore.me"));
}

#[test]
fn failures_of_the_action_are_recorded_for_their_item_only() {
    let mut tree = clean_tree();
    let collected = collect(&mut tree, "/r", config(10), 32, None, ignored, |_, entry| {
        if entry.is_directory {
            Err(ActionError { path: entry.path.clone(), failure: ActionFailure::PermissionDenied })
        } else {
            Ok(())
        }
    });
    assert_eq!(
        collected.lines,
        vec![
            Item { entry: entry("/r/a/ignore.me", false), outcome: Outcome::Succeeded },
            Item {
                entry: entry("/r/b/ignored_dir", true),
                outcome: Outcome::Failed(ActionError {
                    path: "/r/b/ignored_dir".to_string(),
                    failure: ActionFailure::PermissionDenied,
                }),
            },
        ]
    );
}

#[test]
fn collect_without_match_is_done_with_an_empty_ledger() {
    let mut tree = clean_tree();
    let collected = collect(&mut tree, "/r", config(10), 32, None, |_| Verdict::Reject, succeed);
    assert!(collected.lines.is_empty());
    assert_eq!(collected.classified.len(), 7);
}

#[test]
fn collector_settles_each_line_once() {
    let mut tree = clean_tree();
    let mut collector = Collector::new(config(10), tree.child("/r"));
    collector.forwarded(true);
    collector.verdict(Verdict::Accept);
    assert!(!collector.completed(0, Ok(())));
    assert_eq!(collector.lines(), 0);
    assert_eq!(collector.next(), CollectAction::Classify { entry: entry("/r", true), depth: 0 });
    collector.verdict(Verdict::Accept);
    collector.verdict(Verdict::Reject);
    assert_eq!(collector.next(), CollectAction::Forward { item: 0, entry: entry("/r", true) });
    assert_eq!(collector.next(), CollectAction::Forward { item: 0, entry: entry("/r", true) });
    assert_eq!(collector.pending_path(0), None);
    collector.forwarded(true);
    assert_eq!(collector.pending_path(0), Some("/r".to_string()));
    assert_eq!(collector.phase(), Phase::Draining);
    assert_eq!(collector.next(), CollectAction::Drain);
    assert!(!collector.completed(1, Ok(())));
    assert!(collector.completed(0, Ok(())));
    assert!(!collector.completed(0, Ok(())));
    assert_eq!(collector.pending_path(0), None);
    assert_eq!(collector.next(), CollectAction::Done);
    assert_eq!(collector.phase(), Phase::Done);
    collector.listing(Some(vec![tree.child("/r/a")]));
    collector.verdict(Verdict::Accept);
    collector.forwarded(true);
    assert_eq!(collector.next(), CollectAction::Done);
    assert_eq!(
        collector.report(),
        Some(vec![Item { entry: entry("/r", true), outcome: Outcome::Succeeded }])
    );
}

#[test]
fn ledger_counts_what_is_pending() {
    let mut ledger = Ledger::new();
    assert!(ledger.settled());
    assert_eq!(ledger.enter(entry("/a", false), true), 0);
    assert_eq!(ledger.enter(entry("/b", false), false), 1);
    assert_eq!(ledger.enter(entry("/c", true), true), 2);
    assert_eq!(ledger.len(), 3);
    assert!(!ledger.settled());
    assert!(!ledger.record(1, Ok(())));
    assert!(!ledger.record(3, Ok(())));
    assert!(ledger.record(2, Err(ActionError { path: "/c".to_string(), failure: ActionFailure::Other })));
    assert!(!ledger.settled());
    assert!(ledger.record(0, Ok(())));
    assert!(ledger.settled());
    assert_eq!(ledger.line(1), Item { entry: entry("/b", false), outcome: Outcome::Dropped });
    assert_eq!(ledger.lines(), ledger.lines());
    assert_eq!(
        ledger.into_items(),
        vec![
            Item { entry: entry("/a", false), outcome: Outcome::Succeeded },
            Item { entry: entry("/b", false), outcome: Outcome::Dropped },
            Item {
                entry: entry("/c", true),
                outcome: Outcome::Failed(ActionError {
                    path: "/c".to_string(),
                    failure: ActionFailure::Other,
                }),
            },
        ]
    );
}

#[test]
fn config_has_at_least_one_worker() {
    assert_eq!(ScanConfig::new(3, true, 0).thread_count, 1);
    assert_eq!(ScanConfig::new(3, true, 5).thread_count, 5);
    let machine = ScanConfig::for_this_machine(4, false);
    assert!(machine.thread_count >= 1);
    assert_eq!(machine.max_depth, 4);
    assert!(!machine.follow_symlinks);
}

#[test]
fn sightings_copy_path_and_kind() {
    let file = Child { path: "/a".to_string(), name: name_of("/a"), kind: ChildKind::File };
    assert_eq!(file.to_sighting(), Sighting::Entry(entry("/a", false)));
    let dir = Child {
        path: "/d".to_string(),
        name: name_of("/d"),
        kind: ChildKind::Directory { symlink: true, identity: FileId { device: 1, index: 2 } },
    };
    assert_eq!(dir.to_sighting(), Sighting::Entry(entry("/d", true)));
    let broken = Child { path: "/x".to_string(), name: None, kind: ChildKind::Unreadable };
    assert_eq!(broken.to_sighting(), Sighting::Failure(EntryIoError { path: "/x".to_string() }));
    assert_eq!(entry("/a", false).duplicate(), entry("/a", false));
}

#[test]
fn queued_directories_can_be_read_ahead() {
    let mut tree = clean_tree();
    let mut walker = Walker::new(config(10), tree.child("/r"));
    assert_eq!(walker.queued(), Vec::<String>::new());
    walker.next();
    walker.answer(Instruction::Continue);
    assert_eq!(walker.queued(), vec!["/r".to_string()]);
    assert_eq!(walker.next(), WalkAction::List { path: "/r".to_string() });
    assert_eq!(walker.queued(), Vec::<String>::new());
    let listing = tree.list("/r");
    walker.supply(listing);
    walker.next();
    walker.answer(Instruction::Continue);
    walker.next();
    walker.answer(Instruction::Continue);
    assert_eq!(walker.queued(), vec!["/r/a".to_string(), "/r/b".to_string()]);
    assert_eq!(walker.next(), WalkAction::List { path: "/r/a".to_string() });
    assert_eq!(walker.queued(), vec!["/r/b".to_string()]);
}

#[test]
fn locator_knows_its_settings_and_its_queue() {
    let mut tree = two_roots();
    let settings = ScanConfig::new(7, false, 3);
    let mut locator = Locator::new(vec!["/y".to_string()], settings);
    assert_eq!(locator.config(), settings);
    assert_eq!(locator.queued(), Vec::<String>::new());
    locator.next();
    locator.root(tree.probe("/y"));
    locator.next();
    locator.verdict(Verdict::Reject);
    assert_eq!(locator.queued(), vec!["/y".to_string()]);
    locator.next();
    let listing = tree.list("/y");
    locator.listing(listing);
    locator.next();
    locator.verdict(Verdict::Accept);
    assert_eq!(locator.queued(), Vec::<String>::new());
}

#[test]
fn the_work_of_a_walk_is_bounded_by_what_it_is_shown() {
    let mut tree = clean_tree();
    let mut walker = Walker::new(config(10), tree.child("/r"));
    let mut requests = 0;
    let mut supplied = 1;
    loop {
        match walker.next() {
            WalkAction::Visit { .. } => {
                requests += 1;
                walker.answer(Instruction::Continue);
            }
            WalkAction::List { path } => {
                requests += 1;
                let listing = tree.list(&path);
                supplied += listing.as_ref().map_or(1, |children| children.len());
                walker.supply(listing);
            }
            WalkAction::Finished => break,
        }
    }
    assert_eq!(supplied, 7);
    assert_eq!(requests, 7 + 4);
    assert!(requests <= 2 * supplied);
}
