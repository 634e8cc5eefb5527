use user_contacts::model::{
    Contact, CreateUserWithContact, Genre, StoreError, UpdateContact, UpdateUserPayload, User,
};
use user_contacts::store::Store;

fn ana_payload() -> CreateUserWithContact {
    CreateUserWithContact {
        name: String::from("Ana"),
        genre: Genre::Female,
        email: String::from("ana@x.com"),
    }
}

#[test]
fn create_then_joined_read_then_update_then_delete_scenario() {
    let mut s = Store::new();
    let created = s.create_user_and_contact(&ana_payload()).expect("create must succeed");
    assert_eq!(created.name, "Ana");
    assert_eq!(created.genre, Genre::Female);

    let joined = s.get_user(created.id).expect("joined read must succeed");
    assert_eq!(joined.id, created.id);
    assert_eq!(joined.name, "Ana");
    assert_eq!(joined.genre, Genre::Female);
    assert_eq!(joined.email, "ana@x.com");

    let patch = UpdateUserPayload {
        name: None,
        genre: None,
        email: Some(String::from("ana2@x.com")),
    };
    let (u, c) = s.update_user_and_contact(created.id, &patch).expect("update must succeed");
    assert_eq!(u.name, "Ana");
    assert_eq!(u.genre, Genre::Female);
    assert_eq!(c.email, "ana2@x.com");

    let joined2 = s.get_user(created.id).expect("joined read must succeed");
    assert_eq!(joined2.name, "Ana");
    assert_eq!(joined2.genre, Genre::Female);
    assert_eq!(joined2.email, "ana2@x.com");

    s.delete_user(created.id).expect("delete must succeed");
    assert_eq!(s.get_user(created.id), Err(StoreError::NotFound));
    assert_eq!(s.find_user(created.id), None);
}

#[test]
fn create_stores_user_and_contact_together() {
    let mut s = Store::new();
    let u = s
        .create_user_and_contact_with_ids(&ana_payload(), 1, 2)
        .expect("create must succeed");
    assert_eq!(u, User { id: 1, name: String::from("Ana"), genre: Genre::Female });
    assert_eq!(
        s.find_contact(2),
        Some(Contact { id: 2, email: String::from("ana@x.com"), user_id: 1 })
    );
}

#[test]
fn create_with_duplicated_user_id_fails_deterministically() {
    let mut s = Store::new();
    s.create_user_and_contact_with_ids(&ana_payload(), 1, 2).expect("first create succeeds");
    let again = CreateUserWithContact {
        name: String::from("Bea"),
        genre: Genre::Male,
        email: String::from("bea@x.com"),
    };
    assert_eq!(
        s.create_user_and_contact_with_ids(&again, 1, 3),
        Err(StoreError::DuplicateId)
    );
    // The failed creation left nothing behind.
    assert_eq!(s.list_users().len(), 1);
    assert_eq!(s.list_contacts().len(), 1);
    let joined = s.get_user(1).expect("first row still joined");
    assert_eq!(joined.name, "Ana");
}

#[test]
fn create_failure_on_contact_insert_rolls_back_the_user() {
    let mut s = Store::new();
    s.create_user_and_contact_with_ids(&ana_payload(), 1, 2).expect("first create succeeds");
    let second = CreateUserWithContact {
        name: String::from("Bea"),
        genre: Genre::Male,
        email: String::from("bea@x.com"),
    };
    // Contact id 2 is taken: the user insert succeeds, then is rolled back.
    assert_eq!(
        s.create_user_and_contact_with_ids(&second, 9, 2),
        Err(StoreError::DuplicateId)
    );
    // No orphaned user row is left behind.
    assert_eq!(s.find_user(9), None);
    assert_eq!(s.list_users().len(), 1);
    assert_eq!(s.list_contacts().len(), 1);
}

#[test]
fn create_for_an_already_linked_user_id_fails_with_duplicate_link() {
    let mut s = Store::new();
    s.create_user_and_contact_with_ids(&ana_payload(), 1, 2).expect("first create succeeds");
    // The user row goes, its contact row stays linked to id 1 (no cascade).
    s.delete_user(1).expect("delete succeeds");
    assert_eq!(
        s.create_user_and_contact_with_ids(&ana_payload(), 1, 3),
        Err(StoreError::DuplicateLink)
    );
    // The rolled-back creation left no user row behind.
    assert_eq!(s.find_user(1), None);
    assert_eq!(s.list_contacts().len(), 1);
}

#[test]
fn creations_with_distinct_generated_ids_never_collide() {
    let mut s = Store::new();
    s.create_user_and_contact_with_ids(&ana_payload(), 1, 2).expect("first create succeeds");
    let second = CreateUserWithContact {
        name: String::from("Bea"),
        genre: Genre::Male,
        email: String::from("bea@x.com"),
    };
    s.create_user_and_contact_with_ids(&second, 3, 4).expect("distinct ids must succeed");
    assert_eq!(s.list_users().len(), 2);
    assert_eq!(s.get_user(3).expect("joined").email, "bea@x.com");
}

#[test]
fn two_random_creations_both_succeed() {
    let mut s = Store::new();
    let a = s.create_user_and_contact(&ana_payload()).expect("create succeeds");
    let b = s
        .create_user_and_contact(&CreateUserWithContact {
            name: String::from("Bob"),
            genre: Genre::Male,
            email: String::from("bob@x.com"),
        })
        .expect("create succeeds");
    assert_ne!(a.id, b.id);
    assert_eq!(s.list_users().len(), 2);
}

#[test]
fn deleting_a_non_existent_user_returns_not_found() {
    let mut s = Store::new();
    assert_eq!(s.delete_user(42), Err(StoreError::NotFound));
    s.create_user_and_contact_with_ids(&ana_payload(), 1, 2).expect("create succeeds");
    assert_eq!(s.delete_user(42), Err(StoreError::NotFound));
    assert_eq!(s.list_users().len(), 1);
}

#[test]
fn deleting_a_non_existent_contact_returns_not_found() {
    let mut s = Store::new();
    assert_eq!(s.delete_contact(42), Err(StoreError::NotFound));
}

#[test]
fn deleting_a_user_leaves_its_contact_row() {
    let mut s = Store::new();
    s.create_user_and_contact_with_ids(&ana_payload(), 1, 2).expect("create succeeds");
    s.delete_user(1).expect("delete succeeds");
    assert_eq!(s.find_user(1), None);
    assert!(s.find_contact(2).is_some());
}

#[test]
fn update_with_no_fields_set_returns_the_records_unchanged() {
    let mut s = Store::new();
    s.create_user_and_contact_with_ids(&ana_payload(), 1, 2).expect("create succeeds");
    let p = UpdateUserPayload { name: None, genre: None, email: None };
    let (u, c) = s.update_user_and_contact(1, &p).expect("update succeeds");
    assert_eq!(u, User { id: 1, name: String::from("Ana"), genre: Genre::Female });
    assert_eq!(c, Contact { id: 2, email: String::from("ana@x.com"), user_id: 1 });
    let joined = s.get_user(1).expect("joined");
    assert_eq!(joined.name, "Ana");
    assert_eq!(joined.email, "ana@x.com");
}

#[test]
fn updating_only_email_leaves_name_and_genre_unchanged() {
    let mut s = Store::new();
    s.create_user_and_contact_with_ids(&ana_payload(), 1, 2).expect("create succeeds");
    let p = UpdateUserPayload {
        name: None,
        genre: None,
        email: Some(String::from("new@x.com")),
    };
    let (u, c) = s.update_user_and_contact(1, &p).expect("update succeeds");
    assert_eq!(u.name, "Ana");
    assert_eq!(u.genre, Genre::Female);
    assert_eq!(c.email, "new@x.com");
}

#[test]
fn updating_only_user_fields_leaves_email_unchanged() {
    let mut s = Store::new();
    s.create_user_and_contact_with_ids(&ana_payload(), 1, 2).expect("create succeeds");
    let p = UpdateUserPayload {
        name: Some(String::from("Bea")),
        genre: Some(Genre::Male),
        email: None,
    };
    let (u, c) = s.update_user_and_contact(1, &p).expect("update succeeds");
    assert_eq!(u.name, "Bea");
    assert_eq!(u.genre, Genre::Male);
    assert_eq!(c.email, "ana@x.com");
    let joined = s.get_user(1).expect("joined");
    assert_eq!(joined.name, "Bea");
    assert_eq!(joined.genre, Genre::Male);
    assert_eq!(joined.email, "ana@x.com");
}

#[test]
fn updating_a_missing_user_returns_not_found() {
    let mut s = Store::new();
    let p = UpdateUserPayload { name: None, genre: None, email: None };
    assert_eq!(s.update_user_and_contact(1, &p), Err(StoreError::NotFound));
}

#[test]
fn a_user_without_a_contact_is_reported_as_an_inconsistency() {
    let mut s = Store::new();
    s.insert_user(User { id: 1, name: String::from("Ana"), genre: Genre::Female })
        .expect("insert succeeds");
    assert_eq!(s.get_user(1), Err(StoreError::MissingContact));
    let p = UpdateUserPayload { name: None, genre: None, email: None };
    assert_eq!(s.update_user_and_contact(1, &p), Err(StoreError::MissingContact));
    assert_eq!(s.find_user_with_contact(1), Some((
        User { id: 1, name: String::from("Ana"), genre: Genre::Female },
        None,
    )));
}

#[test]
fn inserting_a_second_contact_for_the_same_user_is_refused() {
    let mut s = Store::new();
    s.create_user_and_contact_with_ids(&ana_payload(), 1, 2).expect("create succeeds");
    let extra = Contact { id: 3, email: String::from("other@x.com"), user_id: 1 };
    assert_eq!(s.insert_contact(extra), Err(StoreError::DuplicateLink));
    assert_eq!(s.list_contacts().len(), 1);
}

#[test]
fn inserting_a_duplicate_contact_id_is_refused() {
    let mut s = Store::new();
    s.create_user_and_contact_with_ids(&ana_payload(), 1, 2).expect("create succeeds");
    let extra = Contact { id: 2, email: String::from("other@x.com"), user_id: 9 };
    assert_eq!(s.insert_contact(extra), Err(StoreError::DuplicateId));
}

#[test]
fn contact_update_changes_only_the_email() {
    let mut s = Store::new();
    s.create_user_and_contact_with_ids(&ana_payload(), 1, 2).expect("create succeeds");
    let updated = s
        .update_contact(2, &UpdateContact { email: Some(String::from("new@x.com")) })
        .expect("update succeeds");
    assert_eq!(updated, Contact { id: 2, email: String::from("new@x.com"), user_id: 1 });
    assert_eq!(s.get_user(1).expect("joined").email, "new@x.com");
}

#[test]
fn contact_update_of_missing_id_returns_not_found() {
    let mut s = Store::new();
    assert_eq!(
        s.update_contact(5, &UpdateContact { email: None }),
        Err(StoreError::NotFound)
    );
}

#[test]
fn user_fields_update_keeps_absent_fields() {
    let mut s = Store::new();
    s.create_user_and_contact_with_ids(&ana_payload(), 1, 2).expect("create succeeds");
    let updated = s
        .update_user_fields(1, &UpdateUserPayload {
            name: Some(String::from("Bea")),
            genre: None,
            email: None,
        })
        .expect("update succeeds");
    assert_eq!(updated, User { id: 1, name: String::from("Bea"), genre: Genre::Female });
}

#[test]
fn listing_returns_rows_in_insertion_order() {
    let mut s = Store::new();
    s.create_user_and_contact_with_ids(&ana_payload(), 5, 6).expect("create succeeds");
    s.create_user_and_contact_with_ids(
        &CreateUserWithContact {
            name: String::from("Bob"),
            genre: Genre::Male,
            email: String::from("bob@x.com"),
        },
        3,
        4,
    )
    .expect("create succeeds");
    let users = s.list_users();
    assert_eq!(users.len(), 2);
    assert_eq!(users[0].id, 5);
    assert_eq!(users[1].id, 3);
    let contacts = s.list_contacts();
    assert_eq!(contacts.len(), 2);
    assert_eq!(contacts[0].id, 6);
    assert_eq!(contacts[1].id, 4);
}

#[test]
fn find_user_returns_the_stored_row() {
    let mut s = Store::new();
    s.create_user_and_contact_with_ids(&ana_payload(), 1, 2).expect("create succeeds");
    assert_eq!(
        s.find_user(1),
        Some(User { id: 1, name: String::from("Ana"), genre: Genre::Female })
    );
    assert_eq!(s.find_user(9), None);
}
