use ideal_city::persistence::db::Db;

#[test]
fn world_objects_insert_list_delete_round_trip() {
    let mut db = Db::new();
    assert!(db.list_world_objects().is_empty(), "starts empty");

    let a = db.insert_world_object("poison_tree", 100, 200, "editor:e1", 1000);
    let b = db.insert_world_object("poison_tree", 110, 200, "editor:e1", 1001);
    assert_ne!(a.id, b.id, "each placement mints its own id");

    let all = db.list_world_objects();
    assert_eq!(all.len(), 2);
    assert_eq!(all[0], a, "list returns exactly what insert stored, in placement order");
    assert_eq!(all[1], b);

    assert!(db.delete_world_object(&a.id), "deleting an existing object reports true");
    let remaining = db.list_world_objects();
    assert_eq!(remaining, vec![b], "only the deleted object is gone");
}

#[test]
fn world_object_delete_of_missing_id_reports_false() {
    let mut db = Db::new();
    assert!(
        !db.delete_world_object("no-such-id"),
        "a losing racer's delete must report false (it must not broadcast)"
    );
}
