use yamcrs::store::CounterStore;
use yamcrs::theme::{load_themes, Registry};
use yamcrs::render::render_svg;
use yamcrs::service::{Service, SetOutcome, UnauthorizedReason};

fn service_with_theme(token: Option<&str>) -> Service {
    let dirs = vec![
        ("plain".to_string(), vec![
            ("0.png".to_string(), vec![b'A']),
            ("1.png".to_string(), vec![b'B']),
        ]),
    ];
    Service {
        store: CounterStore::new(),
        registry: load_themes(&dirs),
        default_theme: "plain".to_string(),
        api_auth_token: token.map(|t| t.to_string()),
    }
}

#[test]
fn increments_count_each_call() {
    let mut s = CounterStore::new();
    for expected in 1..=5u64 {
        let got = s.increment("hits");
        assert_eq!(got, expected);
    }
    assert_eq!(s.get("hits"), 5);
}

#[test]
fn increments_are_per_name() {
    let mut s = CounterStore::new();
    s.increment("a");
    s.increment("a");
    s.increment("b");
    assert_eq!(s.get("a"), 2);
    assert_eq!(s.get("b"), 1);
    assert_eq!(s.get("c"), 0);
}

#[test]
fn set_is_idempotent() {
    let mut s = CounterStore::new();
    s.set("n", 9);
    s.set("n", 9);
    assert_eq!(s.get("n"), 9);
}

#[test]
fn fresh_increment_then_reset_round_trip() {
    let mut s = CounterStore::new();
    assert_eq!(s.increment("fresh"), 1);
    s.set("fresh", 0);
    assert_eq!(s.increment("fresh"), 1);
}

#[test]
fn set_without_token_configuration_is_unauthorized() {
    let mut s = service_with_theme(None);
    let r = s.set_count("y", 3, Some("anything"));
    assert!(matches!(
        r,
        SetOutcome::Unauthorized(UnauthorizedReason::MissingTokenConfig)
    ));
    assert_eq!(s.store.get("y"), 0);
}

#[test]
fn set_without_presented_token_is_unauthorized() {
    let mut s = service_with_theme(Some("secret"));
    let r = s.set_count("y", 3, None);
    assert!(matches!(
        r,
        SetOutcome::Unauthorized(UnauthorizedReason::MissingToken)
    ));
    assert_eq!(s.store.get("y"), 0);
}

#[test]
fn set_with_wrong_token_is_unauthorized() {
    let mut s = service_with_theme(Some("secret"));
    let r = s.set_count("y", 3, Some("wrong"));
    assert!(matches!(
        r,
        SetOutcome::Unauthorized(UnauthorizedReason::InvalidToken)
    ));
    assert_eq!(s.store.get("y"), 0);
}

#[test]
fn set_negative_count_is_bad_request_and_leaves_store() {
    let mut s = service_with_theme(Some("secret"));
    let r = s.set_count("y", -1, Some("secret"));
    assert!(matches!(r, SetOutcome::BadRequest));
    assert_eq!(s.store.get("y"), 0);
}

#[test]
fn set_with_correct_token_writes_store() {
    let mut s = service_with_theme(Some("secret"));
    let r = s.set_count("y", 41, Some("secret"));
    assert!(matches!(r, SetOutcome::Done));
    assert_eq!(s.store.get("y"), 41);
}

#[test]
fn get_image_renders_new_count() {
    let mut s = service_with_theme(None);
    let svg = s.get_image("x", None).expect("an image");
    assert_eq!(s.store.get("x"), 1);
    let t = s.registry.get("plain").expect("the theme");
    assert_eq!(svg, render_svg(t, 1));
}

#[test]
fn get_image_with_empty_registry_fails_after_increment() {
    let mut s = Service {
        store: CounterStore::new(),
        registry: Registry::new(),
        default_theme: "plain".to_string(),
        api_auth_token: None,
    };
    let r = s.get_image("z", None);
    assert!(r.is_err());
    // The increment still took effect: counter state and image response are
    // not transactionally linked.
    assert_eq!(s.store.get("z"), 1);
}

#[test]
fn get_image_falls_back_to_default_theme() {
    let mut s = service_with_theme(None);
    let svg = s.get_image("x", Some("nosuch")).expect("an image");
    let t = s.registry.get("plain").expect("the theme");
    assert_eq!(svg, render_svg(t, 1));
}
