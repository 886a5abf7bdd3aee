use hoplite::app::{Route, RouteAdapter};
use hoplite::router::{route_score, select_route};

fn route(method: &str, path: &str, handler: &str) -> Route {
    Route {
        method: method.into(),
        path: path.into(),
        handler: handler.into(),
        name: None,
        summary: None,
        adapter: RouteAdapter::Request,
    }
}

#[test]
fn literal_and_parameter_segments_are_counted() {
    assert_eq!(route_score("/users/:id", "/users/42"), Some((1, 2)));
    assert_eq!(route_score("/users/:id/posts", "/users/42/posts"), Some((2, 3)));
    assert_eq!(route_score("/", "/"), Some((0, 0)));
    assert_eq!(route_score("//users//", "users"), Some((1, 1)));
}

#[test]
fn queries_are_ignored_and_mismatches_refused() {
    assert_eq!(route_score("/users/:id", "/users/42?full=1"), Some((1, 2)));
    assert_eq!(route_score("/users/:id", "/users"), None);
    assert_eq!(route_score("/users", "/users/42"), None);
    assert_eq!(route_score("/users", "/people"), None);
}

#[test]
fn wildcards_match_the_remaining_path() {
    assert_eq!(route_score("/static/*path", "/static/css/site.css"), Some((1, 1)));
    assert_eq!(route_score("/static/*path", "/static"), Some((1, 1)));
    assert_eq!(route_score("/*path", "/anything/at/all"), Some((0, 0)));
}

#[test]
fn the_most_specific_route_serves_a_request() {
    let routes = vec![
        route("GET", "/users/:id", "show"),
        route("GET", "/users/me", "me"),
        route("ANY", "/*path", "fallback"),
        route("POST", "/users/:id", "update"),
    ];
    assert_eq!(select_route(&routes, "get", "/users/me"), Some(1));
    assert_eq!(select_route(&routes, "GET", "/users/7"), Some(0));
    assert_eq!(select_route(&routes, "post", "/users/7"), Some(3));
    assert_eq!(select_route(&routes, "DELETE", "/users/7"), Some(2));
    assert_eq!(select_route(&routes[..2].to_vec(), "DELETE", "/users/7"), None);
}

#[test]
fn ties_go_to_the_last_route() {
    let routes = vec![route("GET", "/a/:x", "first"), route("ANY", "/a/:y", "second")];
    assert_eq!(select_route(&routes, "GET", "/a/1"), Some(1));
}
