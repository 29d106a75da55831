use lam_tui::session::{
    cwd_key, validate_record, Claim, Session, SessionCatalog, SessionError, SessionIndex,
    SessionRecord,
};

/// A catalog in memory: what the host does with files and locks, without them.
struct Catalog {
    paths: SessionCatalog,
    index: SessionIndex,
    held: Vec<u64>,
    now: u64,
}

struct Opened {
    session: Session,
    resumed: bool,
}

impl Catalog {
    fn open() -> Catalog {
        Catalog {
            paths: SessionCatalog { sessions_dir: "/lam/sessions".to_owned() },
            index: SessionIndex { rows: Vec::new(), latest: Vec::new(), next_id: None },
            held: Vec::new(),
            now: 0,
        }
    }

    fn create(&mut self, cwd: &str) -> Session {
        self.now += 1;
        let id = self.index.create(cwd, self.now).unwrap();
        self.held.push(id);
        self.paths.session(id, cwd)
    }

    fn release(&mut self, id: u64) {
        self.held.retain(|held| *held != id);
    }

    fn touch(&mut self, id: u64, cwd: &str, make_latest: bool) -> Result<Session, SessionError> {
        let session = self.paths.session(id, cwd);
        self.now += 1;
        self.index.load_and_touch(
            id,
            cwd,
            make_latest,
            true,
            &session.database_path,
            self.now,
        )?;
        self.held.push(id);
        Ok(session)
    }

    fn resume_or_create(&mut self, cwd: &str) -> Opened {
        let mut outcome = None;
        loop {
            match self.index.resume_or_create(cwd, outcome.take()) {
                Claim::Lease(id) if self.held.contains(&id) => {
                    outcome = Some(Err(SessionError::SessionInUse { id }));
                }
                Claim::Lease(_) => outcome = Some(Ok(())),
                Claim::Resume(id) => {
                    let session = self.touch(id, cwd, false).unwrap();
                    return Opened { session, resumed: true };
                }
                Claim::Create => return Opened { session: self.create(cwd), resumed: false },
                Claim::Fail(error) => panic!("{}", error.message()),
            }
        }
    }

    fn list(&self, cwd: &str) -> Vec<u64> {
        self.index.list(cwd).unwrap().iter().map(|listing| listing.id).collect()
    }

    fn delete(&mut self, id: u64, cwd: &str) -> Result<(), SessionError> {
        let lease = if self.held.contains(&id) {
            Err(SessionError::SessionInUse { id })
        } else {
            Ok(())
        };
        let files = self.paths.delete(&mut self.index, id, cwd, lease)?;
        let session = self.paths.session(id, cwd);
        let log = session.diagnostic_log_path();
        assert_eq!(files, [session.database_path.clone(), session.lease_path(), log]);
        Ok(())
    }
}

#[test]
fn resumes_the_latest_session_for_each_canonical_directory() {
    let mut catalog = Catalog::open();
    let first = catalog.resume_or_create("/first");
    assert!(!first.resumed);
    catalog.release(first.session.id);
    let resumed = catalog.resume_or_create("/first");
    assert!(resumed.resumed);
    assert_eq!(resumed.session, first.session);
    let other = catalog.resume_or_create("/second");
    assert!(!other.resumed);
    assert_ne!(other.session.id, first.session.id);
    assert_eq!(other.session.cwd, "/second");
}

#[test]
fn new_session_advances_the_index_and_becomes_current() {
    let mut catalog = Catalog::open();
    let initial = catalog.resume_or_create("/project").session;
    let fresh = catalog.create("/project");
    assert_eq!(fresh.id, initial.id + 1);
    assert_ne!(fresh.database_path, initial.database_path);
    catalog.release(fresh.id);
    let resumed = catalog.resume_or_create("/project");
    assert!(resumed.resumed);
    assert_eq!(resumed.session, fresh);
}

#[test]
fn lists_newest_first_and_selects_an_older_session_for_the_same_directory() {
    let mut catalog = Catalog::open();
    let oldest = catalog.create("/first");
    let newest = catalog.create("/first");
    let other = catalog.create("/second");
    assert_eq!(catalog.list("/first"), vec![newest.id, oldest.id]);
    for id in [oldest.id, newest.id, other.id] {
        catalog.release(id);
    }
    let selected = catalog.touch(oldest.id, "/first", true).unwrap();
    assert_eq!(selected, oldest);
    catalog.release(selected.id);
    assert_eq!(catalog.resume_or_create("/first").session.id, oldest.id);
}

#[test]
fn concurrent_catalogs_share_the_index_without_sharing_active_sessions() {
    let mut catalog = Catalog::open();
    let first = catalog.resume_or_create("/project");
    let second = catalog.resume_or_create("/project");
    assert_ne!(first.session.id, second.session.id);
    assert_eq!(catalog.list("/project"), vec![second.session.id, first.session.id]);
}

#[test]
fn previews_are_cached_in_the_index_once_stored() {
    let mut catalog = Catalog::open();
    let session = catalog.create("/project");
    let listed = catalog.index.list("/project").unwrap();
    assert_eq!(listed.len(), 1);
    assert_eq!(listed[0].preview, None, "a fresh session has no preview");
    catalog.index.store_preview(session.id, "first message").unwrap();
    let listed = catalog.index.list("/project").unwrap();
    assert_eq!(listed[0].preview.as_deref(), Some("first message"));
    assert!(
        catalog.index.store_preview(9_999, "orphan").is_err(),
        "previews only attach to existing records"
    );
}

#[test]
fn delete_drops_the_record_and_removes_the_session_files() {
    let mut catalog = Catalog::open();
    let session = catalog.create("/project");
    catalog.release(session.id);
    catalog.delete(session.id, "/project").unwrap();
    assert!(catalog.list("/project").is_empty());
    assert!(
        matches!(
            catalog.delete(session.id, "/project"),
            Err(SessionError::MissingRecord { id }) if id == session.id
        ),
        "a deleted session has no record left to delete"
    );
}

#[test]
fn deleting_the_current_session_repoints_the_directory_at_the_newest_remaining() {
    let mut catalog = Catalog::open();
    let oldest = catalog.create("/project");
    let middle = catalog.create("/project");
    let newest = catalog.create("/project");
    catalog.held.clear();

    catalog.delete(newest.id, "/project").unwrap();
    let resumed = catalog.resume_or_create("/project");
    assert!(resumed.resumed);
    assert_eq!(resumed.session.id, middle.id);
    catalog.held.clear();

    catalog.delete(middle.id, "/project").unwrap();
    let resumed = catalog.resume_or_create("/project");
    assert!(resumed.resumed);
    assert_eq!(resumed.session.id, oldest.id);
    catalog.held.clear();

    catalog.delete(oldest.id, "/project").unwrap();
    let fresh = catalog.resume_or_create("/project");
    assert!(!fresh.resumed);
    assert_eq!(catalog.list("/project").len(), 1);
}

#[test]
fn replacing_the_only_session_leaves_the_successor_current() {
    let mut catalog = Catalog::open();
    let replaced = catalog.resume_or_create("/project");
    let successor = catalog.create("/project");
    catalog.release(replaced.session.id);
    catalog.delete(replaced.session.id, "/project").unwrap();
    assert_eq!(catalog.list("/project"), vec![successor.id]);
    catalog.release(successor.id);
    let resumed = catalog.resume_or_create("/project");
    assert!(resumed.resumed);
    assert_eq!(resumed.session.id, successor.id);
}

#[test]
fn delete_refuses_a_session_held_by_another_lease() {
    let mut catalog = Catalog::open();
    let session = catalog.create("/project");
    assert!(matches!(
        catalog.delete(session.id, "/project"),
        Err(SessionError::SessionInUse { id }) if id == session.id
    ));
    assert_eq!(catalog.list("/project"), vec![session.id]);
    catalog.release(session.id);
    assert_eq!(catalog.resume_or_create("/project").session.id, session.id);
}

#[test]
fn delete_refuses_a_session_from_another_directory() {
    let mut catalog = Catalog::open();
    let session = catalog.create("/project");
    catalog.release(session.id);
    assert!(matches!(
        catalog.delete(session.id, "/elsewhere"),
        Err(SessionError::WrongWorkingDirectory { id }) if id == session.id
    ));
    assert_eq!(catalog.list("/project").len(), 1);
}

#[test]
fn session_paths_are_numbered() {
    let catalog = SessionCatalog::open_default(Some("/home/me")).unwrap();
    assert_eq!(catalog.sessions_dir, "/home/me/.lam/sessions");
    assert_eq!(catalog.index_path(), "/home/me/.lam/sessions/index.redb");
    assert_eq!(catalog.lock_path(), "/home/me/.lam/sessions/index.lock");
    let session = catalog.session(42, "/project");
    assert_eq!(session.database_path, "/home/me/.lam/sessions/session-00000042.redb");
    assert_eq!(
        session.diagnostic_log_path(),
        "/home/me/.lam/sessions/session-00000042.debug.jsonl"
    );
    assert_eq!(session.lease_path(), "/home/me/.lam/sessions/session-00000042.lock");
    assert_eq!(
        catalog.session(1_234_567_890, "/project").database_path,
        "/home/me/.lam/sessions/session-1234567890.redb"
    );
    assert!(matches!(
        SessionCatalog::open_default(None),
        Err(SessionError::HomeUnavailable)
    ));
}

#[test]
fn inconsistent_records_are_refused() {
    let mut catalog = Catalog::open();
    let first = catalog.create("/project");
    let second = catalog.create("/project");
    catalog.index.rows[0].record.id = 77;
    assert!(matches!(
        catalog.index.list("/project"),
        Err(SessionError::InvalidRecord { id }) if id == first.id
    ));
    assert!(matches!(
        catalog.index.check(first.id, "/project"),
        Err(SessionError::InvalidRecord { id }) if id == first.id
    ));
    assert!(matches!(
        catalog.index.delete(second.id, "/project"),
        Err(SessionError::InvalidRecord { id }) if id == first.id
    ));
    assert_eq!(catalog.index.rows.len(), 2, "a refused deletion changes nothing");
}

#[test]
fn missing_journals_are_reported() {
    let mut catalog = Catalog::open();
    let session = catalog.create("/project");
    assert!(matches!(
        catalog.index.load_and_touch(session.id, "/project", true, false, "/gone", 5),
        Err(SessionError::MissingJournal { id, path }) if id == session.id && path == "/gone"
    ));
}

#[test]
fn numbers_run_out() {
    let mut index =
        SessionIndex { rows: Vec::new(), latest: Vec::new(), next_id: Some(u64::MAX) };
    assert!(matches!(index.create("/project", 1), Err(SessionError::IdExhausted)));
}

#[test]
fn working_directories_are_absolute_unicode() {
    assert_eq!(cwd_key(Some("/project"), true, "/project").unwrap(), "/project");
    assert!(matches!(
        cwd_key(Some("project"), false, "project"),
        Err(SessionError::RelativeWorkingDirectory(path)) if path == "project"
    ));
    assert!(matches!(
        cwd_key(None, true, "/p\u{fffd}"),
        Err(SessionError::NonUtf8WorkingDirectory(path)) if path == "/p\u{fffd}"
    ));
}

#[test]
fn records_have_a_schema() {
    let mut record = SessionRecord {
        schema_version: 1,
        id: 3,
        cwd: "/project".to_owned(),
        created_at_unix_ms: 0,
        last_opened_at_unix_ms: 0,
        preview: None,
    };
    assert!(validate_record(&record, 3).is_ok());
    assert!(validate_record(&record, 4).is_err());
    record.schema_version = 2;
    assert_eq!(
        validate_record(&record, 3).unwrap_err().message(),
        "session index record 3 is inconsistent"
    );
}

#[test]
fn claims_that_fail_are_reported() {
    let mut catalog = Catalog::open();
    assert_eq!(catalog.index.resume_or_create("/project", None), Claim::Create);
    let session = catalog.create("/project");
    assert_eq!(catalog.index.resume_or_create("/project", None), Claim::Lease(session.id));
    let broken = || SessionError::Lock { path: "/lock".to_owned(), source: "denied".to_owned() };
    assert_eq!(
        catalog.index.resume_or_create("/project", Some(Err(broken()))),
        Claim::Fail(broken())
    );
}

#[test]
fn deleting_takes_one_session_off_the_list() {
    let mut catalog = Catalog::open();
    let first = catalog.create("/project");
    let second = catalog.create("/project");
    let third = catalog.create("/project");
    let other = catalog.create("/other");
    catalog.held.clear();
    catalog.delete(second.id, "/project").unwrap();
    assert_eq!(catalog.list("/project"), [third.id, first.id]);
    assert_eq!(catalog.list("/other"), [other.id]);
    assert_eq!(catalog.index.resume_candidate("/project"), Some(third.id));
    assert!(catalog.delete(second.id, "/project").is_err());
    assert_eq!(catalog.list("/project"), [third.id, first.id]);
    catalog.delete(third.id, "/project").unwrap();
    assert_eq!(catalog.index.resume_candidate("/project"), Some(first.id));
}
