use user_contacts::model::{Contact, Genre, StoreError, UpdateContact, UpdateUserPayload, User};

#[test]
fn genre_encodes_to_single_character_codes() {
    assert_eq!(Genre::Male.code(), 'M');
    assert_eq!(Genre::Female.code(), 'F');
}

#[test]
fn genre_decodes_recognized_codes() {
    assert_eq!(Genre::from_code('M'), Some(Genre::Male));
    assert_eq!(Genre::from_code('F'), Some(Genre::Female));
}

#[test]
fn genre_rejects_unrecognized_codes() {
    assert_eq!(Genre::from_code('X'), None);
    assert_eq!(Genre::from_code('m'), None);
    assert_eq!(Genre::from_code(' '), None);
}

#[test]
fn genre_round_trips_through_its_code() {
    for g in [Genre::Male, Genre::Female] {
        assert_eq!(Genre::from_code(g.code()), Some(g));
    }
}

#[test]
fn user_patch_applies_present_fields_only() {
    let u = User { id: 7, name: String::from("Ana"), genre: Genre::Female };
    let p = UpdateUserPayload {
        name: Some(String::from("Bea")),
        genre: None,
        email: Some(String::from("ignored@x.com")),
    };
    let u2 = u.apply_patch(&p);
    assert_eq!(u2.id, 7);
    assert_eq!(u2.name, "Bea");
    assert_eq!(u2.genre, Genre::Female);
}

#[test]
fn user_patch_with_no_fields_returns_record_unchanged() {
    let u = User { id: 7, name: String::from("Ana"), genre: Genre::Female };
    let p = UpdateUserPayload { name: None, genre: None, email: None };
    assert_eq!(u.apply_patch(&p), u);
}

#[test]
fn contact_patch_applies_email_only() {
    let c = Contact { id: 9, email: String::from("a@x.com"), user_id: 7 };
    let p = UpdateUserPayload {
        name: Some(String::from("ignored")),
        genre: Some(Genre::Male),
        email: Some(String::from("b@x.com")),
    };
    let c2 = c.apply_user_patch(&p);
    assert_eq!(c2.id, 9);
    assert_eq!(c2.user_id, 7);
    assert_eq!(c2.email, "b@x.com");
}

#[test]
fn contact_only_patch_with_no_field_is_identity() {
    let c = Contact { id: 9, email: String::from("a@x.com"), user_id: 7 };
    let p = UpdateContact { email: None };
    assert_eq!(c.apply_patch(&p), c);
}

#[test]
fn status_codes_map_not_found_to_404_and_failures_to_500() {
    assert_eq!(StoreError::NotFound.status_code(), 404);
    assert_eq!(StoreError::DuplicateId.status_code(), 500);
    assert_eq!(StoreError::DuplicateLink.status_code(), 500);
    assert_eq!(StoreError::MissingContact.status_code(), 500);
}
