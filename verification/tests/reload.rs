use confwatch::adapter::FormatKind;
use confwatch::binding::{ConfigBinding, DocumentHandle, Registry};
use confwatch::json::parse_json;
use confwatch::path::ConfigReference;
use confwatch::pipeline::{
    apply_document_bytes, process_batch, process_notification, EventKind, Notification,
};
use confwatch::settings::Settings;
use confwatch::toml::parse_toml;

fn toml_binding(reference: &str, handle_id: u64) -> ConfigBinding {
    ConfigBinding {
        reference: ConfigReference::parse(reference),
        format: FormatKind::Toml,
        handle: DocumentHandle { id: handle_id },
    }
}

fn toml_notification(kind: EventKind, handle_id: u64, text: &str) -> Notification {
    Notification {
        kind,
        handle: DocumentHandle { id: handle_id },
        format: FormatKind::Toml,
        doc: parse_toml(text).expect("valid TOML"),
    }
}

#[test]
fn end_to_end_reload_cycle() {
    let binding = toml_binding("app.toml#audio", 1);
    let mut live: Option<Settings> = None;

    let first = apply_document_bytes(
        &binding,
        &mut live,
        EventKind::Added,
        DocumentHandle { id: 1 },
        FormatKind::Toml,
        b"[audio]\nvolume = 7",
    );
    assert!(first.is_ok());
    assert_eq!(live, Some(Settings { volume: 7 }));

    let second = apply_document_bytes(
        &binding,
        &mut live,
        EventKind::Modified,
        DocumentHandle { id: 1 },
        FormatKind::Toml,
        b"[audio]\nvolume = 9",
    );
    assert!(second.is_ok());
    assert_eq!(live, Some(Settings { volume: 9 }));

    let third = apply_document_bytes(
        &binding,
        &mut live,
        EventKind::Modified,
        DocumentHandle { id: 1 },
        FormatKind::Toml,
        b"[video]\nbrightness = 3",
    );
    assert!(third.is_ok());
    assert_eq!(live, Some(Settings { volume: 9 }));
}

#[test]
fn redelivery_is_idempotent() {
    let binding = toml_binding("app.toml#audio", 1);
    let n = toml_notification(EventKind::Modified, 1, "[audio]\nvolume = 5");

    let mut once: Option<Settings> = None;
    process_notification(&binding, &mut once, &n);

    let mut twice: Option<Settings> = None;
    process_notification(&binding, &mut twice, &n);
    process_notification(&binding, &mut twice, &n);

    assert_eq!(once, Some(Settings { volume: 5 }));
    assert_eq!(once, twice);
}

#[test]
fn stale_handle_is_rejected() {
    let binding = toml_binding("app.toml#audio", 2);
    let stale = toml_notification(EventKind::Modified, 1, "[audio]\nvolume = 5");

    let mut absent: Option<Settings> = None;
    process_notification(&binding, &mut absent, &stale);
    assert_eq!(absent, None);

    let mut present: Option<Settings> = Some(Settings { volume: 3 });
    process_notification(&binding, &mut present, &stale);
    assert_eq!(present, Some(Settings { volume: 3 }));
}

#[test]
fn mismatched_format_is_rejected() {
    let binding = toml_binding("app.json#audio", 1);
    let json = Notification {
        kind: EventKind::Modified,
        handle: DocumentHandle { id: 1 },
        format: FormatKind::Json,
        doc: parse_json("{\"audio\": {\"volume\": 5}}").expect("valid JSON"),
    };
    let mut live: Option<Settings> = None;
    process_notification(&binding, &mut live, &json);
    assert_eq!(live, None);
}

#[test]
fn removal_event_is_not_a_change() {
    let binding = toml_binding("app.toml#audio", 1);
    let removed = toml_notification(EventKind::Removed, 1, "[audio]\nvolume = 5");
    let mut live: Option<Settings> = Some(Settings { volume: 3 });
    process_notification(&binding, &mut live, &removed);
    assert_eq!(live, Some(Settings { volume: 3 }));
}

#[test]
fn missing_sub_path_is_absorbed() {
    let binding = toml_binding("app.toml#audio", 1);
    let partial = toml_notification(EventKind::Modified, 1, "[video]\nbrightness = 3");

    let mut absent: Option<Settings> = None;
    process_notification(&binding, &mut absent, &partial);
    assert_eq!(absent, None);

    let mut present: Option<Settings> = Some(Settings { volume: 3 });
    process_notification(&binding, &mut present, &partial);
    assert_eq!(present, Some(Settings { volume: 3 }));
}

#[test]
fn malformed_document_is_absorbed() {
    let binding = toml_binding("app.toml#audio", 1);

    let mut absent: Option<Settings> = None;
    let r = apply_document_bytes(
        &binding,
        &mut absent,
        EventKind::Modified,
        DocumentHandle { id: 1 },
        FormatKind::Toml,
        b"not [valid toml",
    );
    assert!(r.is_err());
    assert_eq!(absent, None);

    let mut present: Option<Settings> = Some(Settings { volume: 3 });
    let r = apply_document_bytes(
        &binding,
        &mut present,
        EventKind::Modified,
        DocumentHandle { id: 1 },
        FormatKind::Toml,
        b"not [valid toml",
    );
    assert!(r.is_err());
    assert_eq!(present, Some(Settings { volume: 3 }));
}

#[test]
fn last_notification_in_batch_wins() {
    let binding = toml_binding("app.toml#audio", 1);
    let batch = vec![
        toml_notification(EventKind::Modified, 1, "[audio]\nvolume = 7"),
        toml_notification(EventKind::Modified, 1, "[audio]\nvolume = 9"),
    ];
    let mut live: Option<Settings> = None;
    process_batch(&binding, &mut live, &batch);
    assert_eq!(live, Some(Settings { volume: 9 }));
}

#[test]
fn failed_tail_of_batch_keeps_earlier_success() {
    let binding = toml_binding("app.toml#audio", 1);
    let batch = vec![
        toml_notification(EventKind::Modified, 1, "[audio]\nvolume = 7"),
        toml_notification(EventKind::Modified, 1, "[video]\nbrightness = 3"),
    ];
    let mut live: Option<Settings> = None;
    process_batch(&binding, &mut live, &batch);
    assert_eq!(live, Some(Settings { volume: 7 }));
}

#[test]
fn last_passing_notification_in_batch_wins() {
    let binding = toml_binding("app.toml#audio", 1);
    let batch = vec![
        toml_notification(EventKind::Modified, 7, "[audio]\nvolume = 1"),
        toml_notification(EventKind::Modified, 1, "[audio]\nvolume = 4"),
        toml_notification(EventKind::Modified, 1, "[audio]\nvolume = \"loud\""),
    ];
    let mut live: Option<Settings> = None;
    process_batch(&binding, &mut live, &batch);
    assert_eq!(live, Some(Settings { volume: 4 }));
}

#[test]
fn registry_binds_each_key_once() {
    let mut reg = Registry::new();
    assert!(!reg.contains(1));
    assert!(reg.bind(1, toml_binding("app.toml#audio", 1)));
    assert!(reg.contains(1));
    assert!(!reg.bind(1, toml_binding("other.toml", 9)));
    let bound = reg.get(1).expect("key bound");
    assert_eq!(bound.reference.location, "app.toml");
    assert_eq!(bound.handle, DocumentHandle { id: 1 });
}

#[test]
fn registry_records_new_load_attempts() {
    let mut reg = Registry::new();
    assert!(reg.bind(1, toml_binding("app.toml#audio", 1)));
    assert!(reg.bind(2, toml_binding("other.toml", 5)));
    assert!(reg.set_handle(1, DocumentHandle { id: 8 }));
    assert_eq!(reg.get(1).expect("bound").handle, DocumentHandle { id: 8 });
    assert_eq!(reg.get(2).expect("bound").handle, DocumentHandle { id: 5 });
    assert!(!reg.set_handle(3, DocumentHandle { id: 1 }));
    assert!(reg.get(3).is_none());
}
