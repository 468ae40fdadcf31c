use conduit::auth::{acting_user, create_db_authorized, AuthError};
use conduit::routes::{route_request, route_table, Endpoint, Method};
use conduit::time::unix_millis;

#[test]
fn every_route_dispatches() {
    assert_eq!(route_request(Method::Get, "/"), Some(Endpoint::Hello));
    assert_eq!(route_request(Method::Post, "/createdb"), Some(Endpoint::CreateDb));
    assert_eq!(route_request(Method::Post, "/api/users/login"), Some(Endpoint::Login));
    assert_eq!(route_request(Method::Post, "/api/users"), Some(Endpoint::Register));
    assert_eq!(route_request(Method::Get, "/api/user"), Some(Endpoint::CurrentUser));
    assert_eq!(route_request(Method::Get, "/test"), Some(Endpoint::TestPage));
    assert_eq!(route_request(Method::Put, "/api/user"), Some(Endpoint::UpdateUser));
    assert_eq!(
        route_request(Method::Get, "/api/profiles/jake"),
        Some(Endpoint::GetProfile)
    );
    assert_eq!(
        route_request(Method::Post, "/api/profiles/jake/follow"),
        Some(Endpoint::Follow)
    );
    assert_eq!(
        route_request(Method::Delete, "/api/profiles/jake/follow"),
        Some(Endpoint::Unfollow)
    );
    assert_eq!(
        route_request(Method::Post, "/api/articles"),
        Some(Endpoint::CreateArticle)
    );
    assert_eq!(route_request(Method::Get, "/api/tags"), Some(Endpoint::GetTags));
    assert_eq!(
        route_request(Method::Post, "/api/articles/my-slug/comments"),
        Some(Endpoint::AddComment)
    );
    assert_eq!(
        route_request(Method::Post, "/api/articles/my-slug/favorite"),
        Some(Endpoint::FavoriteArticle)
    );
    assert_eq!(
        route_request(Method::Delete, "/api/articles/my-slug/favorite"),
        Some(Endpoint::UnfavoriteArticle)
    );
    assert_eq!(
        route_request(Method::Put, "/api/articles/my-slug"),
        Some(Endpoint::UpdateArticle)
    );
    assert_eq!(
        route_request(Method::Delete, "/api/articles/my-slug/comments/5"),
        Some(Endpoint::DeleteComment)
    );
    assert_eq!(
        route_request(Method::Delete, "/api/articles/my-slug"),
        Some(Endpoint::DeleteArticle)
    );
    assert_eq!(route_request(Method::Get, "/api/articles/feed"), Some(Endpoint::Feed));
    assert_eq!(
        route_request(Method::Get, "/api/articles/my-slug/comments"),
        Some(Endpoint::GetComments)
    );
    assert_eq!(
        route_request(Method::Get, "/api/articles/my-slug"),
        Some(Endpoint::GetArticle)
    );
    assert_eq!(
        route_request(Method::Get, "/api/articles"),
        Some(Endpoint::ListArticles)
    );
    assert_eq!(
        route_request(Method::Get, "/api/articles?limit=10"),
        Some(Endpoint::ListArticles)
    );
    assert_eq!(
        route_request(Method::Options, "/api/anything/at/all"),
        Some(Endpoint::Preflight)
    );
}

#[test]
fn unknown_requests_dispatch_nowhere() {
    assert_eq!(route_request(Method::Get, "/nope"), None);
    assert_eq!(route_request(Method::Post, "/"), None);
    assert_eq!(route_request(Method::Delete, "/api/user"), None);
    assert_eq!(route_request(Method::Options, "/outside"), None);
}

#[test]
fn registration_order_decides_overlaps() {
    // The comment routes stand before the bare article route, and the
    // feed route before both.
    assert_eq!(
        route_request(Method::Delete, "/api/articles/a/comments/1"),
        Some(Endpoint::DeleteComment)
    );
    assert_eq!(route_request(Method::Get, "/api/articles/feed"), Some(Endpoint::Feed));
    let table = route_table();
    assert_eq!(table.len(), 23);
}

#[test]
fn acting_user_rules() {
    // No token: the request acts anonymously as id 0.
    assert_eq!(acting_user(false, None), Ok(0));
    // A carried token acts as its decoded id.
    assert_eq!(acting_user(true, Some(7)), Ok(7));
    // A carried token that does not decode is refused.
    assert_eq!(acting_user(true, None), Err(AuthError::InvalidToken));
}

#[test]
fn create_db_needs_exact_secret() {
    assert!(create_db_authorized("s3cr3t", "s3cr3t"));
    assert!(!create_db_authorized("s3cr3t ", "s3cr3t"));
    assert!(!create_db_authorized("", "s3cr3t"));
}

#[test]
fn epoch_milliseconds() {
    assert_eq!(unix_millis(0, 0), 0);
    assert_eq!(unix_millis(1, 500_000), 1000);
    assert_eq!(unix_millis(2, 7_000_000), 2007);
    assert_eq!(unix_millis(1_499_500_000, 999_999_999), 1_499_500_000_999);
}
