use movie_store::record::MovieRecord;
use movie_store::store::{partitions_wf, Partition, StoreError, DB};

#[test]
fn scenario_create_read_update_delete() {
    let mut db = DB::init(Vec::new());
    let r9 = 9.0f64.to_bits();

    let rec = db
        .post_movie("alice", "Dune".to_string(), Some(r9))
        .expect("a fresh random id collides with an empty partition never");
    assert_eq!(rec.title, "Dune");
    assert_eq!(rec.rating, Some(r9));
    assert_eq!(rec.record_id.len(), 36);

    let all = db.get_movies("alice").unwrap();
    assert_eq!(all.len(), 1);
    assert_eq!(all[0].record_id, rec.record_id);
    assert_eq!(all[0].title, "Dune");
    assert_eq!(all[0].rating, Some(r9));

    assert!(db
        .put_movie("alice", &rec.record_id, "Dune (Extended)".to_string(), None)
        .is_ok());
    let one = db.get_movie("alice", &rec.record_id).unwrap();
    assert_eq!(one.record_id, rec.record_id);
    assert_eq!(one.title, "Dune (Extended)");
    assert_eq!(one.rating, None);

    assert!(db.delete_movie("alice", &rec.record_id).is_ok());
    assert!(matches!(
        db.get_movie("alice", &rec.record_id),
        Err(StoreError::UnknownRecord)
    ));
}

#[test]
fn unknown_user_on_fresh_read() {
    let db = DB::init(Vec::new());
    assert_eq!(
        db.get_movies("never-seen-user").err(),
        Some(StoreError::UnknownUser)
    );
}

#[test]
fn creates_yield_distinct_ids() {
    let mut db = DB::init(Vec::new());
    let mut ids: Vec<String> = Vec::new();
    for k in 0..8 {
        let rec = db
            .post_movie("bob", format!("title-{}", k), None)
            .expect("fresh id");
        ids.push(rec.record_id);
    }
    let all = db.get_movies("bob").unwrap();
    assert_eq!(all.len(), 8);
    for i in 0..8 {
        assert_eq!(all[i].record_id, ids[i]);
        assert_eq!(all[i].title, format!("title-{}", i));
        for j in 0..i {
            assert_ne!(all[i].record_id, all[j].record_id);
        }
    }
}

#[test]
fn delete_removes_exactly_one() {
    let mut db = DB::init(Vec::new());
    let a = db.post_movie("carol", "A".to_string(), None).unwrap();
    let b = db.post_movie("carol", "B".to_string(), Some(1u64)).unwrap();
    assert_eq!(db.get_movies("carol").unwrap().len(), 2);

    assert!(db.delete_movie("carol", &a.record_id).is_ok());
    let rest = db.get_movies("carol").unwrap();
    assert_eq!(rest.len(), 1);
    assert_eq!(rest[0].record_id, b.record_id);
    assert!(matches!(
        db.get_movie("carol", &a.record_id),
        Err(StoreError::UnknownRecord)
    ));
}

#[test]
fn update_is_idempotent() {
    let mut db = DB::init(Vec::new());
    let a = db.post_movie("dave", "Old".to_string(), Some(3u64)).unwrap();

    assert!(db
        .put_movie("dave", &a.record_id, "New".to_string(), Some(7u64))
        .is_ok());
    let once = db.get_movie("dave", &a.record_id).unwrap();
    assert!(db
        .put_movie("dave", &a.record_id, "New".to_string(), Some(7u64))
        .is_ok());
    let twice = db.get_movie("dave", &a.record_id).unwrap();

    assert_eq!(once.record_id, twice.record_id);
    assert_eq!(once.title, twice.title);
    assert_eq!(once.rating, twice.rating);
    assert_eq!(db.get_movies("dave").unwrap().len(), 1);
}

#[test]
fn init_populates_cache() {
    let parts = vec![
        Partition {
            user: "erin".to_string(),
            movies: vec![
                MovieRecord {
                    record_id: "r-1".to_string(),
                    title: "First".to_string(),
                    rating: None,
                },
                MovieRecord {
                    record_id: "r-2".to_string(),
                    title: "Second".to_string(),
                    rating: Some(5u64),
                },
            ],
        },
        Partition {
            user: "frank".to_string(),
            movies: Vec::new(),
        },
    ];
    assert!(partitions_wf(&parts));
    let db = DB::init(parts);

    let erin = db.get_movies("erin").unwrap();
    assert_eq!(erin.len(), 2);
    assert_eq!(erin[0].record_id, "r-1");
    assert_eq!(erin[1].record_id, "r-2");
    assert_eq!(db.get_movie("erin", "r-2").unwrap().title, "Second");
    assert_eq!(db.get_movies("frank").unwrap().len(), 0);
    assert!(matches!(db.get_movies("grace"), Err(StoreError::UnknownUser)));
}

#[test]
fn partitions_wf_rejects_duplicates() {
    let rec = |id: &str| MovieRecord {
        record_id: id.to_string(),
        title: "T".to_string(),
        rating: None,
    };
    let dup_user = vec![
        Partition {
            user: "u".to_string(),
            movies: vec![rec("a")],
        },
        Partition {
            user: "u".to_string(),
            movies: vec![rec("b")],
        },
    ];
    assert!(!partitions_wf(&dup_user));

    let dup_id = vec![Partition {
        user: "u".to_string(),
        movies: vec![rec("x"), rec("x")],
    }];
    assert!(!partitions_wf(&dup_id));

    let fine = vec![
        Partition {
            user: "u".to_string(),
            movies: vec![rec("x"), rec("y")],
        },
        Partition {
            user: "v".to_string(),
            movies: Vec::new(),
        },
    ];
    assert!(partitions_wf(&fine));
}

#[test]
fn update_and_delete_errors() {
    let mut db = DB::init(Vec::new());
    assert!(matches!(
        db.put_movie("nobody", "x", "T".to_string(), None),
        Err(StoreError::UnknownUser)
    ));
    assert!(matches!(
        db.delete_movie("nobody", "x"),
        Err(StoreError::UnknownUser)
    ));

    db.post_movie("gina", "T".to_string(), None).unwrap();
    assert!(matches!(
        db.put_movie("gina", "missing", "T2".to_string(), None),
        Err(StoreError::UnknownRecord)
    ));
    assert!(matches!(
        db.delete_movie("gina", "missing"),
        Err(StoreError::UnknownRecord)
    ));

    let all = db.get_movies("gina").unwrap();
    assert_eq!(all.len(), 1);
    assert_eq!(all[0].title, "T");
}

#[test]
fn split_create_path() {
    let mut db = DB::init(Vec::new());
    let rec = db
        .new_record("henry", "Movie".to_string(), Some(2u64))
        .expect("fresh id");
    assert_eq!(rec.record_id.len(), 36);
    // the persistent write would happen here; then the cache step:
    db.insert_record("henry", rec.clone());

    let got = db.get_movie("henry", &rec.record_id).unwrap();
    assert_eq!(got.title, "Movie");
    assert_eq!(got.rating, Some(2u64));

    let other = db.new_record("henry", "Another".to_string(), None).unwrap();
    assert_ne!(other.record_id, rec.record_id);
}

#[test]
fn read_returns_snapshot() {
    let mut db = DB::init(Vec::new());
    db.post_movie("iris", "Kept".to_string(), None).unwrap();
    let mut snap = db.get_movies("iris").unwrap();
    snap.clear();
    assert_eq!(db.get_movies("iris").unwrap().len(), 1);
}

#[test]
fn zero_rating_is_not_absent() {
    let mut db = DB::init(Vec::new());
    let zero = 0.0f64.to_bits();
    let a = db.post_movie("judy", "Zero".to_string(), Some(zero)).unwrap();
    let b = db.post_movie("judy", "None".to_string(), None).unwrap();
    assert_eq!(db.get_movie("judy", &a.record_id).unwrap().rating, Some(zero));
    assert_eq!(db.get_movie("judy", &b.record_id).unwrap().rating, None);
}

#[test]
fn make_record_reports_collision() {
    let mut db = DB::init(Vec::new());
    db.insert_record(
        "kate",
        MovieRecord {
            record_id: "taken".to_string(),
            title: "Old".to_string(),
            rating: None,
        },
    );
    assert!(db
        .make_record("kate", "taken".to_string(), "New".to_string(), None)
        .is_none());
    let fresh = db
        .make_record("kate", "free".to_string(), "New".to_string(), None)
        .unwrap();
    assert_eq!(fresh.record_id, "free");
    assert_eq!(fresh.title, "New");
}
