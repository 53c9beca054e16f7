use counter_service::routes::{handle, route, Body, Method, Response, Route};
use counter_service::store::{Counter, Store};
use uuid::Uuid;

fn id_text(id: u128) -> String {
    Uuid::from_u128(id).to_string()
}

fn created(store: &mut Store) -> Counter {
    let response = handle(store, Method::Post, b"/counter");
    assert_eq!(response.status, 200);
    match response.body {
        Body::Counter(c) => c,
        other => panic!("unexpected body {:?}", other),
    }
}

fn counter_of(response: Response) -> Counter {
    assert_eq!(response.status, 200);
    match response.body {
        Body::Counter(c) => c,
        other => panic!("unexpected body {:?}", other),
    }
}

fn put(store: &mut Store, id: &str, action: &str) -> Response {
    let path = format!("/counter/{}/{}", id, action);
    handle(store, Method::Put, path.as_bytes())
}

#[test]
fn list_counters() {
    let mut store = Store::new();
    handle(&mut store, Method::Post, b"/counter");
    handle(&mut store, Method::Post, b"/counter");
    let response = handle(&mut store, Method::Get, b"/counter");
    assert_eq!(response.status, 200);
    match response.body {
        Body::Counters(v) => assert_eq!(v.len(), 2),
        other => panic!("unexpected body {:?}", other),
    }
}

#[test]
fn create_counter() {
    let mut store = Store::new();
    let response = handle(&mut store, Method::Post, b"/counter");
    assert_eq!(response.status, 200);
    let counter = counter_of(response);
    assert_eq!(counter.value, 0);
}

#[test]
fn create_and_get_counter() {
    let mut store = Store::new();
    let counter = created(&mut store);
    let path = format!("/counter/{}", id_text(counter.id));
    let response = handle(&mut store, Method::Get, path.as_bytes());
    assert_eq!(response.status, 200);
}

#[test]
fn create_and_increment_counter() {
    let mut store = Store::new();
    let counter = created(&mut store);
    let response = put(&mut store, &id_text(counter.id), "increment");
    assert_eq!(response.status, 200);
    let incremented = counter_of(response);
    assert_eq!(incremented.value, 1);
}

#[test]
fn get_nonexistign_counter() {
    let mut store = Store::new();
    let response = handle(&mut store, Method::Get, b"/counters/xyz123");
    assert_eq!(response.status, 404);
}

#[test]
fn creations_are_listed_once_each_at_zero() {
    let mut store = Store::new();
    let mut ids = Vec::new();
    for _ in 0..5 {
        ids.push(created(&mut store).id);
    }
    let listed = store.list();
    assert_eq!(listed.len(), 5);
    for (c, id) in listed.iter().zip(ids.iter()) {
        assert_eq!(c.value, 0);
        assert_eq!(c.id, *id);
    }
    let mut sorted: Vec<u128> = listed.iter().map(|c| c.id).collect();
    sorted.sort();
    sorted.dedup();
    assert_eq!(sorted.len(), 5);
}

#[test]
fn created_identifier_is_random_version() {
    let mut store = Store::new();
    let counter = created(&mut store);
    let parsed = Uuid::parse_str(&id_text(counter.id)).unwrap();
    assert_eq!(parsed.get_version_num(), 4);
    assert_eq!(parsed.get_variant(), uuid::Variant::RFC4122);
    assert_eq!((counter.id >> 76) & 0xf, 4);
    assert_eq!((counter.id >> 62) & 0x3, 2);
}

#[test]
fn created_counter_reads_zero() {
    let mut store = Store::new();
    let counter = created(&mut store);
    let path = format!("/counter/{}", id_text(counter.id));
    let got = counter_of(handle(&mut store, Method::Get, path.as_bytes()));
    assert_eq!(got, Counter { id: counter.id, value: 0 });
}

#[test]
fn increments_count_up() {
    let mut store = Store::new();
    let counter = created(&mut store);
    let text = id_text(counter.id);
    for k in 1..=7u32 {
        let c = counter_of(put(&mut store, &text, "increment"));
        assert_eq!(c.value, k);
        assert_eq!(c.id, counter.id);
    }
    assert_eq!(store.get(counter.id).unwrap().value, 7);
}

#[test]
fn decrements_stop_at_zero() {
    let mut store = Store::new();
    let counter = created(&mut store);
    let text = id_text(counter.id);
    put(&mut store, &text, "increment");
    put(&mut store, &text, "increment");
    assert_eq!(counter_of(put(&mut store, &text, "decrement")).value, 1);
    for _ in 0..5 {
        assert_eq!(counter_of(put(&mut store, &text, "decrement")).value, 0);
    }
}

#[test]
fn increment_of_absent_counter_creates_it_at_one() {
    let mut store = Store::new();
    let text = "67e55044-10b1-426f-9247-bb680e5fe0c8";
    let c = counter_of(put(&mut store, text, "increment"));
    assert_eq!(c.id, 0x67e5504410b1426f9247bb680e5fe0c8);
    assert_eq!(c.value, 1);
    assert_eq!(store.list().len(), 1);
}

#[test]
fn decrement_of_absent_counter_creates_it_at_zero() {
    let mut store = Store::new();
    let c = counter_of(put(&mut store, "67e5504410b1426f9247bb680e5fe0c8", "decrement"));
    assert_eq!(c, Counter { id: 0x67e5504410b1426f9247bb680e5fe0c8, value: 0 });
    assert_eq!(store.get(c.id), Some(c));
}

#[test]
fn unknown_well_formed_identifier_is_not_found() {
    let mut store = Store::new();
    created(&mut store);
    let path = format!("/counter/{}", id_text(Uuid::new_v4().as_u128()));
    let response = handle(&mut store, Method::Get, path.as_bytes());
    assert_eq!(response.status, 404);
    assert!(matches!(response.body, Body::NotFound));
}

#[test]
fn malformed_identifier_is_a_bad_request() {
    let mut store = Store::new();
    let response = handle(&mut store, Method::Get, b"/counter/not-a-uuid");
    assert_eq!(response.status, 400);
    assert!(matches!(response.body, Body::BadRequest));
    let response = put(&mut store, "xyz123", "increment");
    assert_eq!(response.status, 400);
    let response = put(&mut store, "\u{e9}t\u{e9}", "decrement");
    assert_eq!(response.status, 400);
    assert_eq!(store.list().len(), 0);
}

#[test]
fn unknown_path_is_not_found() {
    let mut store = Store::new();
    for path in ["/unknown/path", "/counters", "/counter/", "/counter/a/b", "", "/counter/x/increment/"] {
        let response = handle(&mut store, Method::Get, path.as_bytes());
        assert_eq!(response.status, 404, "{}", path);
        assert!(matches!(response.body, Body::NotFound));
    }
    let response = handle(&mut store, Method::Put, b"/counter/67e55044-10b1-426f-9247-bb680e5fe0c8/reset");
    assert_eq!(response.status, 404);
}

#[test]
fn wrong_method_is_not_found() {
    let mut store = Store::new();
    assert_eq!(handle(&mut store, Method::Put, b"/counter").status, 404);
    assert_eq!(handle(&mut store, Method::Other, b"/").status, 404);
    assert_eq!(handle(&mut store, Method::Get, b"/counter/67e55044-10b1-426f-9247-bb680e5fe0c8/increment").status, 404);
    assert_eq!(store.list().len(), 0);
}

#[test]
fn index_welcomes() {
    let mut store = Store::new();
    let response = handle(&mut store, Method::Get, b"/");
    assert_eq!(response.status, 200);
    assert!(matches!(response.body, Body::Welcome));
}

#[test]
fn increments_interleaved_with_other_operations_are_all_counted() {
    let mut store = Store::new();
    let target = created(&mut store).id;
    let other = created(&mut store).id;
    for round in 0..50u32 {
        store.increment(target);
        if round % 3 == 0 {
            store.decrement(other);
        }
        let fresh = store.create();
        assert_eq!(fresh.value, 0);
        store.increment(other);
        store.increment(target);
    }
    assert_eq!(store.get(target).unwrap().value, 100);
}

#[test]
fn creation_adds_exactly_one_counter_at_zero() {
    let mut store = Store::new();
    let first = store.create();
    let before = store.list().len();
    let c = store.create();
    assert_eq!(c.value, 0);
    assert_ne!(c.id, first.id);
    assert_eq!(store.list().len(), before + 1);
    assert_eq!(store.get(c.id), Some(c));
    assert_eq!(store.get(first.id), Some(first));
}

#[test]
fn create_with_chosen_identifier() {
    let mut store = Store::new();
    let c = store.create_with_id(42);
    assert_eq!(c, Counter { id: 42, value: 0 });
    store.increment(42);
    assert_eq!(store.get(42).unwrap().value, 1);
    assert_eq!(store.list().len(), 1);
}

#[test]
fn routes_resolve() {
    assert!(matches!(route(b"/"), Route::Index));
    assert!(matches!(route(b"/counter"), Route::Counters));
    match route(b"/counter/abc") {
        Route::Counter(t) => assert_eq!(t, b"abc".to_vec()),
        other => panic!("unexpected route {:?}", other),
    }
    match route(b"/counter/abc/increment") {
        Route::Increment(t) => assert_eq!(t, b"abc".to_vec()),
        other => panic!("unexpected route {:?}", other),
    }
    match route(b"/counter/abc/decrement") {
        Route::Decrement(t) => assert_eq!(t, b"abc".to_vec()),
        other => panic!("unexpected route {:?}", other),
    }
    assert!(matches!(route(b"/counter//increment"), Route::Unknown));
    assert!(matches!(route(b"/counterx"), Route::Unknown));
}
