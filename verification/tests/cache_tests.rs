use pantheon::airtable::{Base, Bases, Record};
use pantheon::cache::{Cache, CachedValue};

fn cached_page(ids: &[&str]) -> CachedValue {
    CachedValue::Records(
        ids.iter()
            .map(|id| Record {
                id: id.to_string(),
                fields: "{}".to_string(),
                created_time: "2024-01-01T00:00:00.000Z".to_string(),
            })
            .collect(),
    )
}

#[test]
fn get_after_set_returns_the_written_value() {
    let mut cache = Cache::new();
    cache.set_json("view-1", cached_page(&["a", "b"]));
    match cache.get_json("view-1") {
        Some(CachedValue::Records(rs)) => {
            assert_eq!(rs.len(), 2);
            assert_eq!(rs[0].id, "a");
            assert_eq!(rs[1].id, "b");
        }
        other => panic!("expected the written page set, got {:?}", other),
    }
}

#[test]
fn two_reads_without_a_write_agree() {
    let mut cache = Cache::new();
    cache.set_json("view-1", cached_page(&["a"]));
    let first = match cache.get_json("view-1") {
        Some(CachedValue::Records(rs)) => rs.iter().map(|r| r.id.clone()).collect::<Vec<_>>(),
        _ => panic!("expected a page set"),
    };
    let second = match cache.get_json("view-1") {
        Some(CachedValue::Records(rs)) => rs.iter().map(|r| r.id.clone()).collect::<Vec<_>>(),
        _ => panic!("expected a page set"),
    };
    assert_eq!(first, second);
}

#[test]
fn set_replaces_prior_value_wholesale() {
    let mut cache = Cache::new();
    cache.set_json("view-1", cached_page(&["a", "b"]));
    cache.set_json("view-1", cached_page(&["c"]));
    match cache.get_json("view-1") {
        Some(CachedValue::Records(rs)) => {
            assert_eq!(rs.len(), 1);
            assert_eq!(rs[0].id, "c");
        }
        other => panic!("expected the second write, got {:?}", other),
    }
}

#[test]
fn keys_do_not_interfere() {
    let mut cache = Cache::new();
    cache.set_json("view-1", cached_page(&["a"]));
    cache.set_json(
        "accessible-bases",
        CachedValue::BaseList(Bases {
            bases: vec![Base {
                id: "appBase".to_string(),
                name: "Volunteers".to_string(),
                permission_level: "read".to_string(),
            }],
            offset: None,
        }),
    );
    assert!(matches!(cache.get_json("view-1"), Some(CachedValue::Records(_))));
    assert!(matches!(cache.get_json("accessible-bases"), Some(CachedValue::BaseList(_))));
}

#[test]
fn evict_removes_the_entry() {
    let mut cache = Cache::new();
    cache.set_json("view-1", cached_page(&["a"]));
    assert!(cache.evict("view-1"));
    assert!(cache.get_json("view-1").is_none());
    assert!(!cache.evict("view-1"));
}

#[test]
fn missing_key_reads_none() {
    let cache = Cache::new();
    assert!(cache.get_json("never-written").is_none());
}
