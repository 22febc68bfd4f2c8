use vitasport::auth::{
    changed_hash, login_outcome, new_user, rehash, user_with_hash, verify_login, AuthError, User,
};

const HASH_OF_PASSWORD: &str = "$2a$04$UuTkLRZZ6QofpDOlMz32MuuxEHA43WOemOYHPz6.SjsVsyO1tDU96";

fn stored(hash: &str) -> User {
    User {
        id: Some(4),
        username: "ana".to_string(),
        password_hash: hash.to_string(),
        role: "Vendedor".to_string(),
        fullname: Some("Ana Paz".to_string()),
    }
}

fn shown() -> User {
    User {
        id: Some(4),
        username: "ana".to_string(),
        password_hash: String::new(),
        role: "Vendedor".to_string(),
        fullname: Some("Ana Paz".to_string()),
    }
}

#[test]
fn login_with_the_right_password() {
    assert_eq!(verify_login(Some(stored(HASH_OF_PASSWORD)), "password"), Ok(shown()));
}

#[test]
fn login_with_a_wrong_password() {
    assert_eq!(
        verify_login(Some(stored(HASH_OF_PASSWORD)), "Password"),
        Err(AuthError::WrongPassword)
    );
    assert_eq!(verify_login(Some(stored(HASH_OF_PASSWORD)), ""), Err(AuthError::WrongPassword));
}

#[test]
fn login_of_an_unknown_user() {
    assert_eq!(verify_login(None, "password"), Err(AuthError::UnknownUser));
}

#[test]
fn login_against_an_unreadable_hash() {
    assert_eq!(verify_login(Some(stored("")), "password"), Err(AuthError::UnreadableHash));
    assert_eq!(verify_login(Some(stored("password")), "password"), Err(AuthError::UnreadableHash));
    assert_eq!(
        verify_login(Some(stored("$2a$04$tjARW6ZON3PhrAIRW2LG/u9a.")), "password"),
        Err(AuthError::UnreadableHash)
    );
}

#[test]
fn login_outcome_for_each_verdict() {
    assert_eq!(login_outcome(stored(HASH_OF_PASSWORD), Some(true)), Ok(shown()));
    assert_eq!(
        login_outcome(stored(HASH_OF_PASSWORD), Some(false)),
        Err(AuthError::WrongPassword)
    );
    assert_eq!(login_outcome(stored(HASH_OF_PASSWORD), None), Err(AuthError::UnreadableHash));
}

#[test]
fn handed_out_user_has_no_hash() {
    assert_eq!(stored(HASH_OF_PASSWORD).without_hash(), shown());
}

#[test]
fn new_user_can_log_in() {
    let user = new_user("leo".to_string(), None, "s3cret", "Administrador".to_string()).unwrap();
    assert_eq!(user.id, None);
    assert_eq!(user.username, "leo");
    assert_eq!(user.role, "Administrador");
    assert_eq!(user.fullname, None);
    assert_ne!(user.password_hash, "s3cret");
    assert!(user.password_hash.starts_with("$2"));
    let logged_in = verify_login(Some(user.clone()), "s3cret").unwrap();
    assert_eq!(logged_in.username, "leo");
    assert_eq!(logged_in.password_hash, "");
    assert_eq!(verify_login(Some(user), "secret"), Err(AuthError::WrongPassword));
}

#[test]
fn user_with_hash_for_each_answer() {
    assert_eq!(
        user_with_hash(
            "ana".to_string(),
            Some("Ana Paz".to_string()),
            "Vendedor".to_string(),
            Some("h".to_string())
        ),
        Ok(User {
            id: None,
            username: "ana".to_string(),
            password_hash: "h".to_string(),
            role: "Vendedor".to_string(),
            fullname: Some("Ana Paz".to_string()),
        })
    );
    assert_eq!(
        user_with_hash("ana".to_string(), None, "Vendedor".to_string(), None),
        Err(AuthError::HashingFailed)
    );
}

#[test]
fn hash_changes_only_with_a_new_password() {
    assert_eq!(changed_hash("old".to_string(), None), Ok("old".to_string()));
    assert_eq!(
        changed_hash("old".to_string(), Some(Some("new".to_string()))),
        Ok("new".to_string())
    );
    assert_eq!(changed_hash("old".to_string(), Some(None)), Err(AuthError::HashingFailed));
    assert_eq!(rehash(HASH_OF_PASSWORD.to_string(), None), Ok(HASH_OF_PASSWORD.to_string()));
    let fresh = rehash(HASH_OF_PASSWORD.to_string(), Some("other")).unwrap();
    assert_ne!(fresh, HASH_OF_PASSWORD);
    assert_eq!(verify_login(Some(stored(&fresh)), "other"), Ok(shown()));
}
