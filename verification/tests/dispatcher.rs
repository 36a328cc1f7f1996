use lfs_locks::dispatcher::{has_marker, AdapterCall, AdapterResult, Dispatcher, Pending, Step};
use lfs_locks::protocol::{Failure, LockEntry, Owner, Request, Response};

fn s(text: &str) -> String {
    text.to_string()
}

fn strings(items: &[&str]) -> Vec<String> {
    items.iter().map(|t| t.to_string()).collect()
}

fn entry(id: &str, path: &str, owner: &str) -> LockEntry {
    LockEntry {
        id: s(id),
        path: s(path),
        owner: Owner { name: s(owner) },
        locked_at: s("2024-01-01T00:00:00Z"),
    }
}

fn pending(call: AdapterCall) -> Pending {
    Pending { call, callback: s("ok"), error: s("err") }
}

fn delivered(reply: Response) -> Step {
    Step::Deliver { channel: s("ok"), reply: Ok(reply) }
}

fn refused(failure: Failure) -> Step {
    Step::Deliver { channel: s("err"), reply: Err(failure) }
}

/// A locking tool that keeps its locks in memory.
struct Tool {
    folder: Option<(String, Vec<String>)>,
    listing: String,
    locks: Vec<(String, String, u32)>,
    next_id: u32,
}

impl Tool {
    fn perform(&mut self, call: &AdapterCall) -> AdapterResult {
        match call {
            AdapterCall::PickFolder => match &self.folder {
                Some((path, entries)) => {
                    AdapterResult::Folder { path: path.clone(), entries: entries.clone() }
                }
                None => AdapterResult::Cancelled,
            },
            AdapterCall::ListTrackedFiles { .. } => {
                AdapterResult::TrackedFiles { output: self.listing.clone() }
            }
            AdapterCall::ListLocks { .. } => {
                let mut output = String::new();
                for (path, owner, id) in &self.locks {
                    output.push_str(&format!("{}\t{}\tID:{}\n", path, owner, id));
                }
                AdapterResult::Locks { output }
            }
            AdapterCall::AcquireLock { path, .. } => {
                if self.locks.iter().any(|(p, _, _)| p == path) {
                    return AdapterResult::Failed { message: s("already locked") };
                }
                let id = self.next_id;
                self.next_id += 1;
                self.locks.push((path.clone(), s("alice"), id));
                AdapterResult::Acquired { entry: entry(&id.to_string(), path, "alice") }
            }
            AdapterCall::ReleaseLock { id, .. } => {
                let before = self.locks.len();
                self.locks.retain(|(_, _, n)| n != id);
                if self.locks.len() == before {
                    AdapterResult::Failed { message: s("no such lock") }
                } else {
                    AdapterResult::Released
                }
            }
        }
    }
}

/// Carries a request through to the step that ends it.
fn run(dispatcher: &mut Dispatcher, tool: &mut Tool, request: Request) -> Step {
    let mut step = dispatcher.start(request);
    loop {
        match step {
            Step::Call(waiting) => {
                let result = tool.perform(&waiting.call);
                step = dispatcher.resume(waiting, result);
            }
            done => return done,
        }
    }
}

fn selected(tool: &mut Tool) -> Dispatcher {
    let mut dispatcher = Dispatcher::new();
    let step = run(&mut dispatcher, tool, Request::PickRepo { callback: s("ok"), error: s("err") });
    assert_eq!(step, delivered(Response::PickRepo { path: s("/work/repo") }));
    dispatcher
}

fn art_tool() -> Tool {
    Tool {
        folder: Some((s("/work/repo"), strings(&["art", ".git", "readme.md"]))),
        listing: s("art/tex.png\nart/model.fbx\n"),
        locks: Vec::new(),
        next_id: 1,
    }
}

#[test]
fn new_dispatcher_holds_nothing() {
    let dispatcher = Dispatcher::new();
    assert_eq!(dispatcher.repository().path(), &None);
    assert!(dispatcher.repository().tracked_files().is_empty());
    assert_eq!(dispatcher.registry().len(), 0);
}

#[test]
fn marker_is_dot_git() {
    assert!(has_marker(&strings(&["src", ".git"])));
    assert!(has_marker(&strings(&[".git"])));
    assert!(!has_marker(&strings(&["src", "git", ".gitignore", ".GIT", ".git "])));
    assert!(!has_marker(&Vec::new()));
}

#[test]
fn echo_is_passed_through() {
    let dispatcher = Dispatcher::new();
    assert_eq!(dispatcher.start(Request::Echo { message: s("hello") }), Step::Echo { message: s("hello") });
}

#[test]
fn undecodable_request_is_rejected() {
    let dispatcher = Dispatcher::new();
    assert_eq!(
        dispatcher.accept(Err(s("unknown variant `fly`"))),
        Step::Reject { failure: Failure::DecodingFailure { message: s("unknown variant `fly`") } }
    );
    assert_eq!(
        dispatcher.accept(Ok(Request::Echo { message: s("hi") })),
        Step::Echo { message: s("hi") }
    );
}

#[test]
fn pick_repo_asks_for_a_folder_first() {
    let dispatcher = Dispatcher::new();
    assert_eq!(
        dispatcher.start(Request::PickRepo { callback: s("ok"), error: s("err") }),
        Step::Call(pending(AdapterCall::PickFolder))
    );
}

#[test]
fn picked_repository_has_its_tracked_files_listed() {
    let mut dispatcher = Dispatcher::new();
    let step = dispatcher.resume(
        pending(AdapterCall::PickFolder),
        AdapterResult::Folder { path: s("/work/repo"), entries: strings(&[".git", "art"]) },
    );
    assert_eq!(step, Step::Call(pending(AdapterCall::ListTrackedFiles { repo: s("/work/repo") })));
    assert_eq!(dispatcher.repository().path(), &None);
    let step = dispatcher.resume(
        pending(AdapterCall::ListTrackedFiles { repo: s("/work/repo") }),
        AdapterResult::TrackedFiles { output: s("art/tex.png\r\nart/model.fbx\r\n") },
    );
    assert_eq!(step, delivered(Response::PickRepo { path: s("/work/repo") }));
    assert_eq!(dispatcher.repository().path(), &Some(s("/work/repo")));
    assert_eq!(dispatcher.repository().tracked_files(), &strings(&["art/tex.png", "art/model.fbx"]));
}

#[test]
fn cancelled_pick_answers_with_the_empty_path() {
    let mut tool = art_tool();
    tool.folder = None;
    let mut dispatcher = Dispatcher::new();
    let step = run(&mut dispatcher, &mut tool, Request::PickRepo { callback: s("ok"), error: s("err") });
    assert_eq!(step, delivered(Response::PickRepo { path: s("") }));
    assert_eq!(dispatcher.repository().path(), &None);
}

#[test]
fn folder_without_marker_keeps_the_selected_repository() {
    let mut tool = art_tool();
    let mut dispatcher = selected(&mut tool);
    run(&mut dispatcher, &mut tool, Request::LockFile { path: s("art/tex.png"), callback: s("ok"), error: s("err") });
    tool.folder = Some((s("/tmp/plain"), strings(&["notes.txt", "git"])));
    tool.listing = s("other.bin\n");
    let step = run(&mut dispatcher, &mut tool, Request::PickRepo { callback: s("ok"), error: s("err") });
    assert_eq!(step, delivered(Response::PickRepo { path: s("") }));
    assert_eq!(dispatcher.repository().path(), &Some(s("/work/repo")));
    assert_eq!(dispatcher.repository().tracked_files(), &strings(&["art/tex.png", "art/model.fbx"]));
    assert_eq!(dispatcher.registry().get(&s("art/tex.png")), Some((s("alice"), 1)));
}

#[test]
fn folder_with_empty_path_counts_as_no_choice() {
    let mut dispatcher = Dispatcher::new();
    let step = dispatcher.resume(
        pending(AdapterCall::PickFolder),
        AdapterResult::Folder { path: s(""), entries: strings(&[".git"]) },
    );
    assert_eq!(step, delivered(Response::PickRepo { path: s("") }));
}

#[test]
fn selecting_again_replaces_the_tracked_files() {
    let mut tool = art_tool();
    let mut dispatcher = selected(&mut tool);
    tool.folder = Some((s("/work/second"), strings(&[".git"])));
    tool.listing = s("sound/a.wav\n");
    let step = run(&mut dispatcher, &mut tool, Request::PickRepo { callback: s("ok"), error: s("err") });
    assert_eq!(step, delivered(Response::PickRepo { path: s("/work/second") }));
    assert_eq!(dispatcher.repository().tracked_files(), &strings(&["sound/a.wav"]));
    tool.listing = s("");
    run(&mut dispatcher, &mut tool, Request::PickRepo { callback: s("ok"), error: s("err") });
    assert_eq!(dispatcher.repository().tracked_files(), &Vec::<String>::new());
    assert_eq!(dispatcher.repository().path(), &Some(s("/work/second")));
}

#[test]
fn failed_listing_of_tracked_files_selects_nothing() {
    let mut dispatcher = Dispatcher::new();
    let step = dispatcher.resume(
        pending(AdapterCall::ListTrackedFiles { repo: s("/work/repo") }),
        AdapterResult::Failed { message: s("git: not found") },
    );
    assert_eq!(step, refused(Failure::AdapterFailure { message: s("git: not found") }));
    assert_eq!(dispatcher.repository().path(), &None);
}

#[test]
fn locked_files_without_repository_are_none() {
    let dispatcher = Dispatcher::new();
    assert_eq!(
        dispatcher.start(Request::GetLockedFiles { callback: s("ok"), error: s("err") }),
        delivered(Response::GetLockedFiles { locked_files: Vec::new() })
    );
}

#[test]
fn refresh_replaces_the_registry() {
    let mut tool = art_tool();
    let mut dispatcher = selected(&mut tool);
    assert_eq!(
        dispatcher.start(Request::GetLockedFiles { callback: s("ok"), error: s("err") }),
        Step::Call(pending(AdapterCall::ListLocks { repo: s("/work/repo") }))
    );
    run(&mut dispatcher, &mut tool, Request::LockFile { path: s("art/tex.png"), callback: s("ok"), error: s("err") });
    tool.locks = vec![(s("art/model.fbx"), s("bob"), 12), (s("art/new.psd"), s("eve"), 13)];
    let step = run(&mut dispatcher, &mut tool, Request::GetLockedFiles { callback: s("ok"), error: s("err") });
    assert_eq!(
        step,
        delivered(Response::GetLockedFiles {
            locked_files: strings(&["art/model.fbx\tbob\tID:12", "art/new.psd\teve\tID:13"]),
        })
    );
    assert_eq!(dispatcher.registry().len(), 2);
    assert!(!dispatcher.registry().contains(&s("art/tex.png")));
    assert_eq!(dispatcher.registry().get(&s("art/model.fbx")), Some((s("bob"), 12)));
    assert_eq!(dispatcher.registry().get(&s("art/new.psd")), Some((s("eve"), 13)));
}

#[test]
fn refresh_with_a_malformed_line_fails_and_keeps_the_registry() {
    let mut tool = art_tool();
    let mut dispatcher = selected(&mut tool);
    run(&mut dispatcher, &mut tool, Request::LockFile { path: s("art/tex.png"), callback: s("ok"), error: s("err") });
    let step = dispatcher.resume(
        pending(AdapterCall::ListLocks { repo: s("/work/repo") }),
        AdapterResult::Locks { output: s("art/model.fbx\tbob\tID:12\nwhat is this\n") },
    );
    assert_eq!(step, refused(Failure::MalformedAdapterOutput { text: s("what is this") }));
    assert_eq!(dispatcher.registry().len(), 1);
    assert_eq!(dispatcher.registry().get(&s("art/tex.png")), Some((s("alice"), 1)));
}

#[test]
fn failed_refresh_keeps_the_registry() {
    let mut tool = art_tool();
    let mut dispatcher = selected(&mut tool);
    run(&mut dispatcher, &mut tool, Request::LockFile { path: s("art/tex.png"), callback: s("ok"), error: s("err") });
    let step = dispatcher.resume(
        pending(AdapterCall::ListLocks { repo: s("/work/repo") }),
        AdapterResult::Failed { message: s("exit status 2") },
    );
    assert_eq!(step, refused(Failure::AdapterFailure { message: s("exit status 2") }));
    assert_eq!(dispatcher.registry().len(), 1);
}

#[test]
fn search_is_answered_from_the_tracked_files() {
    let mut tool = art_tool();
    let dispatcher = selected(&mut tool);
    assert_eq!(
        dispatcher.start(Request::GetFilteredFiles { filter: s("TEX"), callback: s("ok"), error: s("err") }),
        delivered(Response::GetFilteredFiles { filtered_files: strings(&["art/tex.png", "art/model.fbx"]) })
    );
    assert_eq!(
        dispatcher.start(Request::GetFilteredFiles { filter: s(""), callback: s("ok"), error: s("err") }),
        delivered(Response::GetFilteredFiles { filtered_files: Vec::new() })
    );
    assert_eq!(
        Dispatcher::new().start(Request::GetFilteredFiles { filter: s("tex"), callback: s("ok"), error: s("err") }),
        delivered(Response::GetFilteredFiles { filtered_files: Vec::new() })
    );
}

#[test]
fn lock_without_repository_fails() {
    let dispatcher = Dispatcher::new();
    assert_eq!(
        dispatcher.start(Request::LockFile { path: s("a.bin"), callback: s("ok"), error: s("err") }),
        refused(Failure::AdapterFailure { message: s("no repository is selected") })
    );
}

#[test]
fn lock_on_a_path_in_the_registry_is_a_conflict() {
    let mut tool = art_tool();
    let mut dispatcher = selected(&mut tool);
    run(&mut dispatcher, &mut tool, Request::LockFile { path: s("art/tex.png"), callback: s("ok"), error: s("err") });
    assert_eq!(
        dispatcher.start(Request::LockFile { path: s("art/tex.png"), callback: s("ok"), error: s("err") }),
        refused(Failure::StaleRegistryConflict { path: s("art/tex.png") })
    );
    assert_eq!(tool.locks.len(), 1);
}

#[test]
fn failed_lock_keeps_the_registry() {
    let mut tool = art_tool();
    let mut dispatcher = selected(&mut tool);
    tool.locks = vec![(s("art/tex.png"), s("bob"), 40)];
    let step = run(&mut dispatcher, &mut tool, Request::LockFile { path: s("art/tex.png"), callback: s("ok"), error: s("err") });
    assert_eq!(step, refused(Failure::AdapterFailure { message: s("already locked") }));
    assert_eq!(dispatcher.registry().len(), 0);
}

#[test]
fn lock_entry_with_unreadable_number_is_malformed() {
    let mut tool = art_tool();
    let mut dispatcher = selected(&mut tool);
    let step = dispatcher.resume(
        pending(AdapterCall::AcquireLock { repo: s("/work/repo"), path: s("art/tex.png") }),
        AdapterResult::Acquired { entry: entry("seven", "art/tex.png", "alice") },
    );
    assert_eq!(step, refused(Failure::MalformedAdapterOutput { text: s("seven") }));
    assert_eq!(dispatcher.registry().len(), 0);
}

#[test]
fn unlock_of_an_unknown_number_is_done_without_a_call() {
    let mut tool = art_tool();
    let mut dispatcher = selected(&mut tool);
    run(&mut dispatcher, &mut tool, Request::LockFile { path: s("art/tex.png"), callback: s("ok"), error: s("err") });
    assert_eq!(
        dispatcher.start(Request::UnlockFile { id: 99, callback: s("ok"), error: s("err") }),
        delivered(Response::UnlockFile { id: 99 })
    );
    assert_eq!(dispatcher.registry().len(), 1);
    assert_eq!(
        Dispatcher::new().start(Request::UnlockFile { id: 1, callback: s("ok"), error: s("err") }),
        delivered(Response::UnlockFile { id: 1 })
    );
}

#[test]
fn failed_unlock_keeps_the_registry() {
    let mut tool = art_tool();
    let mut dispatcher = selected(&mut tool);
    run(&mut dispatcher, &mut tool, Request::LockFile { path: s("art/tex.png"), callback: s("ok"), error: s("err") });
    tool.locks.clear();
    let step = run(&mut dispatcher, &mut tool, Request::UnlockFile { id: 1, callback: s("ok"), error: s("err") });
    assert_eq!(step, refused(Failure::AdapterFailure { message: s("no such lock") }));
    assert_eq!(dispatcher.registry().get(&s("art/tex.png")), Some((s("alice"), 1)));
}

#[test]
fn result_that_does_not_answer_the_call_fails() {
    let mut tool = art_tool();
    let mut dispatcher = selected(&mut tool);
    let step = dispatcher.resume(
        pending(AdapterCall::ReleaseLock { repo: s("/work/repo"), id: 1 }),
        AdapterResult::Locks { output: s("a b ID:1\n") },
    );
    assert_eq!(step, refused(Failure::AdapterFailure { message: s("the result does not answer the call") }));
    let step = dispatcher.resume(pending(AdapterCall::PickFolder), AdapterResult::Released);
    assert_eq!(step, refused(Failure::AdapterFailure { message: s("the result does not answer the call") }));
    assert_eq!(dispatcher.registry().len(), 0);
    assert_eq!(dispatcher.repository().path(), &Some(s("/work/repo")));
}

#[test]
fn lock_then_unlock_leaves_the_path_as_before() {
    let mut tool = art_tool();
    let mut dispatcher = selected(&mut tool);
    run(&mut dispatcher, &mut tool, Request::LockFile { path: s("art/model.fbx"), callback: s("ok"), error: s("err") });
    assert!(!dispatcher.registry().contains(&s("art/tex.png")));
    run(&mut dispatcher, &mut tool, Request::LockFile { path: s("art/tex.png"), callback: s("ok"), error: s("err") });
    assert_eq!(dispatcher.registry().get(&s("art/tex.png")), Some((s("alice"), 2)));
    let step = run(&mut dispatcher, &mut tool, Request::UnlockFile { id: 2, callback: s("ok"), error: s("err") });
    assert_eq!(step, delivered(Response::UnlockFile { id: 2 }));
    assert!(!dispatcher.registry().contains(&s("art/tex.png")));
    assert_eq!(dispatcher.registry().get(&s("art/model.fbx")), Some((s("alice"), 1)));
}

#[test]
fn two_locks_in_flight_end_the_same_in_either_order() {
    let a = pending(AdapterCall::AcquireLock { repo: s("/work/repo"), path: s("art/tex.png") });
    let b = pending(AdapterCall::AcquireLock { repo: s("/work/repo"), path: s("art/model.fbx") });
    let got_a = AdapterResult::Acquired { entry: entry("1", "art/tex.png", "alice") };
    let got_b = AdapterResult::Acquired { entry: entry("2", "art/model.fbx", "alice") };
    for a_first in [true, false] {
        let mut tool = art_tool();
        let mut dispatcher = selected(&mut tool);
        let first = dispatcher.start(Request::LockFile { path: s("art/tex.png"), callback: s("ok"), error: s("err") });
        let second = dispatcher.start(Request::LockFile { path: s("art/model.fbx"), callback: s("ok"), error: s("err") });
        assert_eq!(first, Step::Call(pending(AdapterCall::AcquireLock { repo: s("/work/repo"), path: s("art/tex.png") })));
        assert_eq!(second, Step::Call(pending(AdapterCall::AcquireLock { repo: s("/work/repo"), path: s("art/model.fbx") })));
        let (step_a, step_b) = match (first, second) {
            (Step::Call(first), Step::Call(second)) => {
                assert_eq!((&first, &second), (&a, &b));
                if a_first {
                    let x = dispatcher.resume(first, AdapterResult::Acquired { entry: entry("1", "art/tex.png", "alice") });
                    let y = dispatcher.resume(second, AdapterResult::Acquired { entry: entry("2", "art/model.fbx", "alice") });
                    (x, y)
                } else {
                    let y = dispatcher.resume(second, AdapterResult::Acquired { entry: entry("2", "art/model.fbx", "alice") });
                    let x = dispatcher.resume(first, AdapterResult::Acquired { entry: entry("1", "art/tex.png", "alice") });
                    (x, y)
                }
            }
            _ => unreachable!(),
        };
        assert_eq!(step_a, delivered(Response::LockFile { lock_entry: entry("1", "art/tex.png", "alice") }));
        assert_eq!(step_b, delivered(Response::LockFile { lock_entry: entry("2", "art/model.fbx", "alice") }));
        assert_eq!(dispatcher.registry().len(), 2);
        assert_eq!(dispatcher.registry().get(&s("art/tex.png")), Some((s("alice"), 1)));
        assert_eq!(dispatcher.registry().get(&s("art/model.fbx")), Some((s("alice"), 2)));
    }
    assert_ne!(got_a, got_b);
}

#[test]
fn lock_list_unlock_list() {
    let mut tool = art_tool();
    let mut dispatcher = selected(&mut tool);
    assert_eq!(dispatcher.repository().tracked_files(), &strings(&["art/tex.png", "art/model.fbx"]));
    assert_eq!(dispatcher.registry().len(), 0);

    let step = run(&mut dispatcher, &mut tool, Request::LockFile { path: s("art/tex.png"), callback: s("ok"), error: s("err") });
    assert_eq!(
        step,
        delivered(Response::LockFile {
            lock_entry: LockEntry {
                id: s("1"),
                path: s("art/tex.png"),
                owner: Owner { name: s("alice") },
                locked_at: s("2024-01-01T00:00:00Z"),
            },
        })
    );

    let step = run(&mut dispatcher, &mut tool, Request::GetLockedFiles { callback: s("ok"), error: s("err") });
    assert_eq!(step, delivered(Response::GetLockedFiles { locked_files: strings(&["art/tex.png\talice\tID:1"]) }));
    assert_eq!(dispatcher.registry().get(&s("art/tex.png")), Some((s("alice"), 1)));

    let step = run(&mut dispatcher, &mut tool, Request::UnlockFile { id: 1, callback: s("ok"), error: s("err") });
    assert_eq!(step, delivered(Response::UnlockFile { id: 1 }));
    assert!(!dispatcher.registry().contains(&s("art/tex.png")));

    let step = run(&mut dispatcher, &mut tool, Request::GetLockedFiles { callback: s("ok"), error: s("err") });
    assert_eq!(step, delivered(Response::GetLockedFiles { locked_files: Vec::new() }));
    assert_eq!(dispatcher.registry().len(), 0);
}
