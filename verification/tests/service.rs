use serde_json::Value;
use table_store::auth::jwt::JwtData;
use table_store::auth::middleware::bearer_token;
use table_store::auth::model::{LoginResponse, RegisterReponse, User, UserFormBody};
use table_store::auth::route::{AuthApi, USER_TABLE_NAME};
use table_store::config::ServerConfig;
use table_store::items::model::{
    not_found_detail, Item, ItemCreateBody, ItemDelete, ItemNotFound, ItemUpdateBody,
};
use table_store::response::{
    CreateResponse, DeleteResponse, Detail, FetchResponse, GenericError, GenericResponse,
    UpdateResponse,
};

#[test]
fn item_new_keeps_its_fields() {
    let item = Item::new(4, "widget".to_string());
    assert_eq!(item.id, 4);
    assert_eq!(item.name, "widget");
    let create = ItemCreateBody { name: "a".to_string() };
    let update = ItemUpdateBody { name: "b".to_string() };
    assert_eq!((create.name.as_str(), update.name.as_str()), ("a", "b"));
}

#[test]
fn user_new_keeps_its_fields() {
    let user =
        User::new(2, "alice".to_string(), "secret".to_string(), vec!["MUTATE".to_string()]);
    assert_eq!(user.id, 2);
    assert_eq!(user.username, "alice");
    assert_eq!(user.password, "secret");
    assert_eq!(user.permissions, vec!["MUTATE".to_string()]);
    assert!(user.has_password(&"secret".to_string()));
    assert!(!user.has_password(&"Secret".to_string()));
    assert!(!user.has_password(&String::new()));
    let form = UserFormBody { username: "u".to_string(), password: "p".to_string() };
    assert_eq!((form.username.as_str(), form.password.as_str()), ("u", "p"));
}

#[test]
fn item_not_found_messages() {
    assert_eq!(not_found_detail(99).message, "Item 99 not found.");
    assert_eq!(not_found_detail(0).message, "Item 0 not found.");
    assert_eq!(not_found_detail(4294967295).message, format!("Item {:?} not found.", u32::MAX));
    match <FetchResponse<Item> as ItemNotFound>::not_found(5) {
        FetchResponse::NotFound(detail) => assert_eq!(detail.message, "Item 5 not found."),
        _ => panic!("not the answer for a missing item"),
    }
    match <UpdateResponse<Item> as ItemNotFound>::not_found(6) {
        UpdateResponse::NotFound(detail) => assert_eq!(detail.message, "Item 6 not found."),
        _ => panic!("not the answer for a missing item"),
    }
    match <DeleteResponse as ItemNotFound>::not_found(7) {
        DeleteResponse::NotFound(detail) => assert_eq!(detail.message, "Item 7 not found."),
        _ => panic!("not the answer for a missing item"),
    }
}

#[test]
fn success_messages() {
    match <DeleteResponse as ItemDelete>::success() {
        DeleteResponse::Success(detail) => {
            assert_eq!(detail.message, "Item deleted successfully.")
        }
        _ => panic!("not the answer for a deleted item"),
    }
    match <CreateResponse<Detail> as RegisterReponse>::success() {
        CreateResponse::Created(detail) => {
            assert_eq!(detail.message, "User registered successfully")
        }
        _ => panic!("not the answer for a registered user"),
    }
    match LoginResponse::new("abc.def".to_string()) {
        CreateResponse::Success(body) => assert_eq!(body.token, "abc.def"),
        _ => panic!("not the answer for a login"),
    }
    match GenericError::not_authorized() {
        GenericError::Unauthorized(detail) => {
            assert_eq!(detail.message, "You are not authorized to do this request")
        }
        _ => panic!("not the failure for a request that is not allowed"),
    }
}

fn detail() -> Detail {
    Detail { message: String::new() }
}

#[test]
fn statuses() {
    assert_eq!(FetchResponse::Success(1u8).status(), 200);
    assert_eq!(FetchResponse::<u8>::NotFound(detail()).status(), 404);
    assert_eq!(DeleteResponse::Success(detail()).status(), 200);
    assert_eq!(DeleteResponse::NotFound(detail()).status(), 404);
    assert_eq!(CreateResponse::Created(1u8).status(), 201);
    assert_eq!(CreateResponse::Success(1u8).status(), 200);
    assert_eq!(CreateResponse::BadRequest(1u8).status(), 400);
    assert_eq!(UpdateResponse::Success(1u8).status(), 200);
    assert_eq!(UpdateResponse::<u8>::NotFound(detail()).status(), 400);
    assert_eq!(GenericError::DbLock.status(), 500);
    assert_eq!(GenericError::Internal.status(), 500);
    assert_eq!(GenericError::DbOperation.status(), 500);
    assert_eq!(GenericError::TableNotFound.status(), 500);
    assert_eq!(GenericError::JwtEncoding.status(), 500);
    assert_eq!(GenericError::Unauthorized(detail()).status(), 401);
    assert_eq!(GenericError::BadRequest(detail()).status(), 400);
}

fn object(fields: Vec<(&str, Value)>) -> Value {
    let mut map = serde_json::Map::new();
    for (key, value) in fields {
        map.insert(key.to_string(), value);
    }
    Value::Object(map)
}

#[test]
fn generic_response_body() {
    let both = GenericResponse {
        status_code_u16: 200,
        message: Some("fine".to_string()),
        data: Some(Value::from(3u32)),
    };
    assert_eq!(
        both.body(),
        Some(object(vec![("data", Value::from(3u32)), ("message", Value::from("fine"))]))
    );
    let message_only = GenericResponse::<Value> {
        status_code_u16: 404,
        message: Some("not found".to_string()),
        data: None,
    };
    assert_eq!(message_only.body(), Some(object(vec![("message", Value::from("not found"))])));
    let data_only =
        GenericResponse { status_code_u16: 200, message: None, data: Some(Value::Null) };
    assert_eq!(data_only.body(), Some(object(vec![("data", Value::Null)])));
    let neither = GenericResponse::<Value> { status_code_u16: 204, message: None, data: None };
    assert_eq!(neither.body(), None);
}

#[test]
fn bearer_tokens() {
    assert_eq!(bearer_token("Bearer abc.def.ghi"), Some("abc.def.ghi"));
    assert_eq!(bearer_token("Bearer "), Some(""));
    assert_eq!(bearer_token("Bearer  x"), Some(" x"));
    assert_eq!(bearer_token("Bearer \u{e9}\u{4e2d}!"), Some("\u{e9}\u{4e2d}!"));
    assert_eq!(bearer_token("Bearer"), None);
    assert_eq!(bearer_token("bearer abc"), None);
    assert_eq!(bearer_token("Basic abc"), None);
    assert_eq!(bearer_token(" Bearer abc"), None);
    assert_eq!(bearer_token(""), None);
    assert_eq!(bearer_token("\u{e9}\u{e9}\u{e9}\u{e9}\u{e9}\u{e9}\u{e9}\u{e9}"), None);
}

#[test]
fn token_expiry() {
    let data = JwtData::expiring_at("alice".to_string(), vec!["MUTATE".to_string()], 1000);
    assert_eq!(data.username, "alice");
    assert_eq!(data.permissions, vec!["MUTATE".to_string()]);
    assert_eq!(data.exp, 1000);
    assert!(!data.is_expired_at(999));
    assert!(data.is_expired_at(1000));
    assert!(data.is_expired_at(1001));
    assert!(data.is_expired_at(i64::MAX));
    assert!(!data.is_expired_at(i64::MIN));
}

#[test]
fn token_from_the_clock() {
    let day = chrono::Duration::try_hours(24).unwrap();
    let fresh = JwtData::new("bob".to_string(), vec![], day).unwrap();
    assert_eq!(fresh.username, "bob");
    assert!(!fresh.is_expired());
    assert!(fresh.is_expired_at(fresh.exp));
    let past = chrono::Duration::try_hours(-1).unwrap();
    let stale = JwtData::new("bob".to_string(), vec![], past).unwrap();
    assert!(stale.is_expired());
    assert!(JwtData::new("bob".to_string(), vec![], chrono::Duration::MAX).is_none());
}

#[test]
fn server_address() {
    let config = ServerConfig::default();
    assert_eq!(config.host, "0.0.0.0");
    assert_eq!(config.port, 3000);
    assert_eq!(config.jwt_secret, "secret");
    assert_eq!(config.jwt_hour_duration, 24);
    assert_eq!(config.address(), "0.0.0.0:3000");
    let other = ServerConfig {
        host: "localhost".to_string(),
        port: 65535,
        jwt_secret: String::new(),
        jwt_hour_duration: 1,
    };
    assert_eq!(other.address(), "localhost:65535");
    let zero = ServerConfig { port: 0, ..ServerConfig::default() };
    assert_eq!(zero.address(), "0.0.0.0:0");
}

fn alice() -> User {
    User::new(1, "alice".to_string(), "secret".to_string(), vec!["MUTATE".to_string()])
}

#[test]
fn login_needs_the_password() {
    let let_in = AuthApi::check_password(alice(), &"secret".to_string());
    match let_in {
        Ok(user) => assert_eq!((user.id, user.username.as_str()), (1, "alice")),
        Err(_) => panic!("the right password was refused"),
    }
    for wrong in ["", "secre", "secret ", "SECRET"] {
        match AuthApi::check_password(alice(), &wrong.to_string()) {
            Err(GenericError::Unauthorized(detail)) => {
                assert_eq!(detail.message, "You are not authorized to do this request")
            }
            _ => panic!("a wrong password was not refused as unauthorized"),
        }
    }
}

#[test]
fn registration_needs_a_free_username() {
    assert!(AuthApi::check_new_username(0).is_ok());
    for found in [1usize, 2, usize::MAX] {
        match AuthApi::check_new_username(found) {
            Err(GenericError::BadRequest(detail)) => {
                assert_eq!(detail.message, "User already exists!")
            }
            _ => panic!("a taken username was not refused as a bad request"),
        }
    }
}

#[test]
fn registered_user_may_mutate() {
    let form = UserFormBody { username: "bob".to_string(), password: "pw".to_string() };
    let user = AuthApi::new_user(9, form);
    assert_eq!(user.id, 9);
    assert_eq!(user.username, "bob");
    assert_eq!(user.password, "pw");
    assert_eq!(user.permissions, vec!["MUTATE".to_string()]);
    assert_eq!(USER_TABLE_NAME, "user");
}

#[test]
fn token_for_a_given_expiry() {
    let some = JwtData::expiring("eve".to_string(), vec!["MUTATE".to_string()], Some(42));
    let data = some.unwrap();
    assert_eq!(data.username, "eve");
    assert_eq!(data.permissions, vec!["MUTATE".to_string()]);
    assert_eq!(data.exp, 42);
    assert!(JwtData::expiring("eve".to_string(), vec![], None).is_none());
    let never_fresh = JwtData::expiring_at("eve".to_string(), vec![], i64::MIN);
    assert!(never_fresh.is_expired());
}
