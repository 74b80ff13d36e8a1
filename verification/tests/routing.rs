use httpengine::pool::WorkerPool;
use httpengine::query::{query_create, query_delete, query_load, query_patch, query_update};
use httpengine::response::{status_line, Response};
use httpengine::route::{Route, RouteError, Routes};

#[test]
fn exact_match_takes_precedence_over_wildcard() {
    let mut routes = Routes::new(Vec::new());
    assert!(routes.add_route("GET", "/users/{id}", 1));
    assert!(routes.add_route("GET", "/users/42", 2));
    let i = routes.resolve("GET", "/users/42", 0).unwrap();
    assert_eq!(routes.get_route(i).handler_fn, 2);
}

#[test]
fn wildcard_fallback_matches_parameterized_route() {
    let mut routes = Routes::new(Vec::new());
    assert!(routes.add_route("GET", "/users/{id}", 1));
    assert!(routes.add_route("GET", "/users/42", 2));
    let i = routes.resolve("GET", "/users/7", 0).unwrap();
    assert_eq!(routes.get_route(i).handler_fn, 1);
}

#[test]
fn unresolved_route_is_not_found() {
    let mut routes = Routes::new(Vec::new());
    assert!(routes.add_route("GET", "/users/{id}", 1));
    assert_eq!(routes.resolve("POST", "/users/7", 0), Err(RouteError::NotFound));
    assert_eq!(routes.resolve("GET", "/items/7", 0), Err(RouteError::NotFound));
}

#[test]
fn duplicate_registration_is_rejected() {
    let mut routes = Routes::new(Vec::new());
    assert!(routes.add_route("GET", "/users/{id}", 1));
    assert!(!routes.add_route("GET", "/users/{id}", 2));
    let i = routes.resolve("GET", "/users/9", 0).unwrap();
    assert_eq!(routes.get_route(i).handler_fn, 1);
}

#[test]
fn search_route_finds_exact_key() {
    let mut routes = Routes::new(Vec::new());
    assert!(routes.add_route("DELETE", "/users/1", 3));
    assert!(routes.add_route("GET", "/users/1", 4));
    let i = routes.search_route("GET".to_string(), "/users/1".to_string()).unwrap();
    assert_eq!(routes.get_route(i).key, "GET /users/1");
    assert!(routes.search_route("PUT".to_string(), "/users/1".to_string()).is_err());
}

#[test]
fn is_exist_reports_registration() {
    let mut routes = Routes::new(Vec::new());
    assert!(routes.add_route("GET", "/a", 1));
    assert!(routes.is_exist("GET".to_string(), "/a".to_string(), 0));
    assert!(!routes.is_exist("GET".to_string(), "/b".to_string(), 0));
}

#[test]
fn push_appends_route() {
    let mut routes = Routes::new(vec![Route::new("GET", "/a", 1)]);
    routes.push(Route::new("GET", "/b", 2));
    assert_eq!(routes.len(), 2);
    assert_eq!(routes.get_route(1).key, "GET /b");
    assert_eq!(Route::new("POST", "/x", 9).key, "POST /x");
}

#[test]
fn response_renders_exact_content_length() {
    let resp = Response::new("{\"ok\":true}".to_string(), "application/json".to_string());
    let text = resp.render(200);
    assert_eq!(
        text,
        "HTTP/1.1 200 OK\r\nContent-Type: application/json\r\nContent-Length: 11\r\n\r\n{\"ok\":true}"
    );
}

#[test]
fn response_content_length_counts_bytes() {
    let resp = Response::new("héllo".to_string(), "text/plain".to_string());
    let text = resp.render(200);
    assert!(text.contains("Content-Length: 6"));
}

#[test]
fn unrecognized_status_code_maps_to_not_found() {
    let resp = Response::new("x".to_string(), "text/plain".to_string());
    let text = resp.render(999);
    assert!(text.starts_with("HTTP/1.1 404 Not Found\r\n"));
}

#[test]
fn status_line_table() {
    assert_eq!(status_line(200), "HTTP/1.1 200 OK");
    assert_eq!(status_line(400), "HTTP/1.1 400 Bad Request");
    assert_eq!(status_line(401), "HTTP/1.1 401 Unauthorized");
    assert_eq!(status_line(403), "HTTP/1.1 403 Forbidden");
    assert_eq!(status_line(500), "HTTP/1.1 500 Internal Server Error");
    assert_eq!(status_line(404), "HTTP/1.1 404 Not Found");
    assert_eq!(status_line(302), "HTTP/1.1 404 Not Found");
}

#[test]
fn pool_completes_every_submitted_job_once() {
    let k = 5u64;
    let mut pool = WorkerPool::new(2);
    for job in 1..=k {
        pool.execute(job);
    }
    assert_eq!(pool.pending(), k as usize);
    let mut seen = Vec::new();
    while let Some(job) = pool.take() {
        assert!(pool.complete(job));
        seen.push(job);
    }
    assert_eq!(pool.pending(), 0);
    assert_eq!(pool.completed_count(), k as usize);
    seen.sort();
    assert_eq!(seen, vec![1, 2, 3, 4, 5]);
}

#[test]
fn pool_hands_jobs_out_in_submission_order() {
    let mut pool = WorkerPool::new(1);
    pool.execute(10);
    pool.execute(20);
    assert_eq!(pool.take(), Some(10));
    assert_eq!(pool.take(), Some(20));
    assert_eq!(pool.take(), None);
}

#[test]
fn pool_rejects_completion_of_job_not_in_flight() {
    let mut pool = WorkerPool::new(1);
    pool.execute(1);
    assert!(!pool.complete(1));
    let j = pool.take().unwrap();
    assert!(pool.complete(j));
    assert!(!pool.complete(j));
    assert_eq!(pool.completed_count(), 1);
    assert_eq!(pool.size(), 1);
}

#[test]
fn query_texts_are_exact() {
    assert_eq!(
        query_load("users".to_string(), "42".to_string()),
        "select id, username, email, phone, date_of_birth from users where id = 42"
    );
    assert_eq!(
        query_create("users".to_string()),
        "insert into users (id, username, email, phone, date_of_birth) values (?, ?, ?, ?, ?)"
    );
    assert_eq!(
        query_update("users".to_string()),
        "update users set username = ?, email = ?, phone = ?, date_of_birth = ? where id = ?"
    );
    assert_eq!(query_delete("users".to_string()), "delete from users where id = ?");
    assert_eq!(
        query_patch(
            "users".to_string(),
            "42".to_string(),
            &vec![
                ("username".to_string(), "\"ada\"".to_string()),
                ("phone".to_string(), "\"1\"".to_string()),
            ],
        ),
        "update users set username='\"ada\"' set phone='\"1\"' where id='42'"
    );
    assert_eq!(
        query_patch("users".to_string(), "7".to_string(), &Vec::new()),
        "update users where id='7'"
    );
}
