use kmf::ledger::Ledger;
use kmf::locator::Locator;
use kmf::orchestra::{select_version, Kmf};
use kmf::record::CacheDownloadRecord;
use kmf::resolver::{AnyResolver, Error, HeadSnapshot, ResolveInfo};
use kmf::station::KmfResolver;
use kmf::timestamp::Timestamp;
use kmf::web::{url_id, CachePlan, WebResolver};

fn ts(nanos: u32) -> Timestamp {
    Timestamp { year: 2024, month: 3, day: 5, hour: 6, minute: 7, second: 8, nanos }
}

fn head(t: Timestamp, len: u64) -> HeadSnapshot {
    HeadSnapshot { last_modified: Some(t), content_length: Some(len), final_url: None }
}

fn web() -> WebResolver {
    WebResolver::new(String::from("/cache/record.toml"), String::from("/cache/web"))
}

#[test]
fn web_resolve_computes_digest_identity() {
    let w = web();
    let url = Locator::new("https", "//example.org/pack.zip");
    let info = w.resolve(&url, &head(ts(0), 42)).unwrap();
    // The id is the locator text's SHA-256, hex-rendered: recompute it
    // with the same outside crates the resolver relies on.
    let expected = hex::encode(<sha2::Sha256 as sha2::Digest>::digest(
        "https://example.org/pack.zip".as_bytes(),
    ));
    assert_eq!(info.id, expected);
    assert_eq!(info.id.len(), 64);
    assert_ne!(info.id, "https://example.org/pack.zip");
    assert_eq!(info.size, 42);
    assert_eq!(info.last_updated, ts(0));
}

#[test]
fn redirects_fix_the_resolved_source() {
    // The metadata query ends somewhere else after redirects: the snapshot
    // keeps the requested locator but the source is the one fetched, and a
    // refresh records that source beside the requested specifier.
    let w = web();
    let url = Locator::new("https", "//example.org/pack.zip");
    let final_url = Locator::new("https", "//cdn.example.net/pack-v2.zip");
    let snapshot = HeadSnapshot {
        last_modified: Some(ts(3)),
        content_length: Some(9),
        final_url: Some(final_url),
    };
    let info = w.resolve(&url, &snapshot).unwrap();
    assert_eq!(info.url.text(), "https://example.org/pack.zip");
    assert_eq!(info.source.text(), "https://cdn.example.net/pack-v2.zip");
    match w.cache_step(&url, &Ledger::new(), &info) {
        CachePlan::Refresh { updated, .. } => {
            let rec = updated.get(&info.id).unwrap();
            assert_eq!(rec.specifier().text(), "https://example.org/pack.zip");
            assert_eq!(rec.source().text(), "https://cdn.example.net/pack-v2.zip");
        },
        _ => panic!("must refresh"),
    }
}

#[test]
fn resolve_without_redirect_keeps_the_requested_source() {
    let w = web();
    let url = Locator::new("https", "//example.org/pack.zip");
    let info = w.resolve(&url, &head(ts(0), 1)).unwrap();
    assert_eq!(info.source.text(), "https://example.org/pack.zip");
}

#[test]
fn web_resolve_rejects_other_schemes() {
    let w = web();
    let url = Locator::new("ftp", "//example.org/pack.zip");
    assert!(matches!(w.resolve(&url, &head(ts(0), 0)), Err(Error::CannotResolve)));
}

#[test]
fn web_resolve_defaults_missing_metadata_to_epoch_and_zero() {
    let w = web();
    let url = Locator::new("http", "//example.org/a");
    let info = w
        .resolve(
            &url,
            &HeadSnapshot { last_modified: None, content_length: None, final_url: None },
        )
        .unwrap();
    assert_eq!(info.last_updated, Timestamp::epoch());
    assert_eq!(info.size, 0);
}

#[test]
fn url_id_matches_the_published_test_vector() {
    // SHA-256("abc"), hex-rendered: the published test vector.
    assert_eq!(
        url_id("abc"),
        "ba7816bf8f01cfea414140de5dae2223b00361a396177a9cb410ff61f20015ad"
    );
}

#[test]
fn url_id_differs_from_input_and_is_stable() {
    let a = url_id("https://example.org/a");
    let b = url_id("https://example.org/a");
    assert_eq!(a, b);
    assert_eq!(a.len(), 64);
    assert_ne!(a, "https://example.org/a");
}

#[test]
fn cache_hit_is_idempotent() {
    // A fresh root: first cache call refreshes; a second call with an
    // unchanged origin reuses the directory without another body fetch.
    let w = web();
    let url = Locator::new("https", "//example.org/pack.zip");
    let info = w.resolve(&url, &head(ts(123_456_789), 7)).unwrap();
    let empty = Ledger::new();
    let plan = w.cache_step(&url, &empty, &info);
    let updated = match plan {
        CachePlan::Refresh { dir, updated } => {
            assert_eq!(dir, format!("/cache/web/{}", info.id));
            updated
        },
        CachePlan::UseCurrent { .. } => panic!("first call against an empty ledger must refresh"),
    };
    let info2 = w.resolve(&url, &head(ts(123_456_789), 7)).unwrap();
    match w.cache_step(&url, &updated, &info2) {
        CachePlan::UseCurrent { dir } => {
            assert_eq!(dir, format!("/cache/web/{}", info.id));
        },
        CachePlan::Refresh { .. } => panic!("unchanged origin must not refresh"),
    }
}

#[test]
fn staleness_triggers_refresh_and_updates_ledger() {
    let w = web();
    let url = Locator::new("https", "//example.org/pack.zip");
    let info = w.resolve(&url, &head(ts(1), 7)).unwrap();
    let ledger = match w.cache_step(&url, &Ledger::new(), &info) {
        CachePlan::Refresh { updated, .. } => updated,
        _ => panic!("must refresh"),
    };
    // The origin's last-modified changes by one nanosecond: stale.
    let info2 = w.resolve(&url, &head(ts(2), 7)).unwrap();
    assert!(!w.is_up_to_date(&url, &ledger, &info2));
    match w.cache_step(&url, &ledger, &info2) {
        CachePlan::Refresh { updated, .. } => {
            let rec = updated.get(&info.id).expect("record must exist");
            assert_eq!(rec.last_updated(), ts(2));
            assert_eq!(updated.len(), 1);
        },
        _ => panic!("a stale entry must refresh"),
    }
}

#[test]
fn empty_cache_root_bootstrap_refreshes() {
    let w = web();
    let url = Locator::new("https", "//example.org/first.zip");
    let info = w.resolve(&url, &head(ts(5), 1)).unwrap();
    let empty = Ledger::new();
    assert_eq!(empty.len(), 0);
    assert!(!w.is_up_to_date(&url, &empty, &info));
    match w.cache_step(&url, &empty, &info) {
        CachePlan::Refresh { updated, .. } => {
            assert_eq!(updated.len(), 1);
            assert!(updated.get(&info.id).is_some());
        },
        _ => panic!("bootstrap must refresh"),
    }
}

#[test]
fn unknown_scheme_fails_with_mod_not_found() {
    let kmf = Kmf {
        default_game: None,
        resolvers: vec![
            AnyResolver::Kmf(KmfResolver::new(
                String::from("/c/kmf/record.toml"),
                String::from("/c/kmf"),
            )),
            AnyResolver::Web(web()),
        ],
    };
    let url = Locator::new("ftp", "//example.org/pack.zip");
    assert!(matches!(kmf.pick_resolver(&url), Err(Error::ModNotFound)));
    let http = Locator::new("https", "//example.org/pack.zip");
    assert_eq!(kmf.pick_resolver(&http).unwrap(), 1);
    let custom = Locator::new("kmf", "abc@1.2");
    assert_eq!(kmf.pick_resolver(&custom).unwrap(), 0);
}

#[test]
fn delegating_resolver_translates_versions() {
    let k = KmfResolver::new(String::from("/c/record.toml"), String::from("/c/kmf"));
    let with_version = Locator::new("kmf", "abc@1.2");
    let t = k.translate_url_to_web(&with_version).unwrap();
    assert_eq!(t.text(), "https://kmf-station.zice.top/mod/abc/1.2");
    let without_version = Locator::new("kmf", "abc");
    let t2 = k.translate_url_to_web(&without_version).unwrap();
    assert_eq!(t2.text(), "https://kmf-station.zice.top/mod/abc/latest");
    let wrong = Locator::new("https", "//x");
    assert!(matches!(k.translate_url_to_web(&wrong), Err(Error::CannotResolve)));
}

#[test]
fn delegating_resolver_overrides_id_with_mod_identifier() {
    let k = KmfResolver::new(String::from("/c/record.toml"), String::from("/c/kmf"));
    let url = Locator::new("kmf", "abc@1.2");
    let info = k.resolve(&url, &head(ts(9), 3)).unwrap();
    assert_eq!(info.id, "abc");
    assert_eq!(info.url.text(), "kmf:abc@1.2");
    assert_eq!(info.size, 3);
}

#[test]
fn extract_url_splits_id_and_version() {
    let url = Locator::new("kmf", "abc@1.2");
    let (id, version) = KmfResolver::extract_url(&url).unwrap();
    assert_eq!(id, "abc");
    assert_eq!(version, "1.2");
    let bare = Locator::new("kmf", "abc");
    let (id2, version2) = KmfResolver::extract_url(&bare).unwrap();
    assert_eq!(id2, "abc");
    assert_eq!(version2, "latest");
    let http = Locator::new("http", "//x");
    assert!(KmfResolver::extract_url(&http).is_none());
}

#[test]
fn delegating_records_keep_the_requested_specifier() {
    let k = KmfResolver::new(String::from("/c/record.toml"), String::from("/c/kmf"));
    let url = Locator::new("kmf", "abc@1.2");
    let web_url = k.translate_url_to_web(&url).unwrap();
    let web_info = k.inner.resolve(&web_url, &head(ts(4), 2)).unwrap();
    let plan = k.cache_step(&url, &Ledger::new(), &web_info).unwrap();
    match plan {
        CachePlan::Refresh { updated, .. } => {
            let rec = updated.get(&web_info.id).unwrap();
            assert_eq!(rec.specifier().text(), "kmf:abc@1.2");
            assert_eq!(rec.source().text(), "https://kmf-station.zice.top/mod/abc/1.2");
            // A later staleness check by the requested specifier finds it.
            let fresh = k.resolve(&url, &head(ts(4), 2)).unwrap();
            assert!(k.is_up_to_date(&url, &updated, &fresh).unwrap());
        },
        _ => panic!("must refresh"),
    }
}

#[test]
fn select_version_prefers_requested_then_newest() {
    let versions = vec![String::from("300"), String::from("200")];
    assert_eq!(select_version(&versions, None).unwrap(), "300");
    assert_eq!(select_version(&versions, Some("200")).unwrap(), "200");
    match select_version(&versions, Some("100")) {
        Err(Error::VersionNotFound { version }) => assert_eq!(version, "100"),
        _ => panic!("a missing version must be reported"),
    }
}

#[test]
fn select_version_reports_an_installation_without_versions() {
    let none: Vec<String> = vec![];
    match select_version(&none, None) {
        Err(Error::VersionNotFound { version }) => assert_eq!(version, "latest"),
        _ => panic!("an empty installation must be reported"),
    }
}

#[test]
fn standard_registry_tries_the_delegating_resolver_first() {
    let kmf = Kmf::new(
        None,
        String::from("/c/kmf_record.toml"),
        String::from("/c/kmf"),
        String::from("/c/web_record.toml"),
        String::from("/c/web"),
    );
    assert_eq!(kmf.pick_resolver(&Locator::new("kmf", "abc")).unwrap(), 0);
    assert_eq!(kmf.pick_resolver(&Locator::new("https", "//e.org/a")).unwrap(), 1);
    assert!(matches!(
        kmf.pick_resolver(&Locator::new("ftp", "//e.org/a")),
        Err(Error::ModNotFound)
    ));
}

#[test]
fn game_target_prefers_the_task_then_the_default() {
    let with_default = Kmf {
        default_game: Some(Locator::new("file", "///games/main")),
        resolvers: vec![],
    };
    let asked = with_default.game_target(Some(Locator::new("file", "///games/other"))).unwrap();
    assert_eq!(asked.text(), "file:///games/other");
    let fallback = with_default.game_target(None).unwrap();
    assert_eq!(fallback.text(), "file:///games/main");
    let bare = Kmf { default_game: None, resolvers: vec![] };
    assert!(matches!(bare.game_target(None), Err(Error::GameNotSpecified)));
}

fn mk_record(spec: &str, src: &str, t: Timestamp) -> CacheDownloadRecord {
    let spec = Locator::parse(spec).unwrap();
    let src = Locator::parse(src).unwrap();
    CacheDownloadRecord::new(&spec, &src, &t)
}

#[test]
fn ledger_round_trips_with_subsecond_precision() {
    let mut ledger = Ledger::new();
    ledger.insert(
        String::from("aa11"),
        mk_record("kmf:abc@1.2", "https://kmf-station.zice.top/mod/abc/1.2", ts(123_456_789)),
    );
    ledger.insert(
        String::from("bb22"),
        mk_record("https://example.org/x.zip", "https://example.org/x.zip", ts(0)),
    );
    let text = ledger.to_text();
    let back = Ledger::from_text(text.as_str()).expect("serialized ledger must parse");
    assert_eq!(back.len(), 2);
    let a = back.get("aa11").unwrap();
    assert_eq!(a.specifier().text(), "kmf:abc@1.2");
    assert_eq!(a.source().text(), "https://kmf-station.zice.top/mod/abc/1.2");
    assert_eq!(a.last_updated(), ts(123_456_789));
    let b = back.get("bb22").unwrap();
    assert_eq!(b.last_updated(), ts(0));
    // Semantic no-op: serializing the parsed ledger gives the same bytes.
    assert_eq!(back.to_text(), text);
}

#[test]
fn ledger_insert_replaces_existing_id() {
    let mut ledger = Ledger::new();
    ledger.insert(
        String::from("aa"),
        mk_record("https://e.org/1", "https://e.org/1", ts(1)),
    );
    ledger.insert(
        String::from("aa"),
        mk_record("https://e.org/1", "https://e.org/1", ts(2)),
    );
    assert_eq!(ledger.len(), 1);
    assert_eq!(ledger.get("aa").unwrap().last_updated(), ts(2));
}

#[test]
fn ledger_text_format_is_a_toml_table_per_id() {
    let mut ledger = Ledger::new();
    ledger.insert(
        String::from("aa11"),
        mk_record("https://e.org/1", "https://e.org/1", ts(0)),
    );
    let text = ledger.to_text();
    assert_eq!(
        text,
        "[aa11]\nspecifier = \"https://e.org/1\"\nsource = \"https://e.org/1\"\nlast_update = \"2024-03-05T06:07:08.000000000\"\n"
    );
    // And it parses as ordinary TOML too.
    let parsed: toml::Table = toml::from_str(&text).expect("ledger text must be valid TOML");
    let entry = parsed["aa11"].as_table().unwrap();
    assert_eq!(entry["specifier"].as_str().unwrap(), "https://e.org/1");
    assert_eq!(entry["last_update"].as_str().unwrap(), "2024-03-05T06:07:08.000000000");
}

#[test]
fn unparsable_ledger_is_reported_not_reset() {
    assert!(Ledger::from_text("not a ledger").is_none());
    assert!(Ledger::from_text("[aa]\nspecifier = \"x\"").is_none());
    // Duplicate ids are corruption, not a last-writer-wins merge.
    let dup = "[aa]\nspecifier = \"https://e.org/1\"\nsource = \"https://e.org/1\"\nlast_update = \"2024-03-05T06:07:08.000000000\"\n[aa]\nspecifier = \"https://e.org/1\"\nsource = \"https://e.org/1\"\nlast_update = \"2024-03-05T06:07:08.000000000\"\n";
    assert!(Ledger::from_text(dup).is_none());
    // The empty file is the empty ledger.
    assert_eq!(Ledger::from_text("").unwrap().len(), 0);
}

#[test]
fn timestamp_renders_and_parses_back() {
    let t = ts(123_456_789);
    let text = t.render();
    assert_eq!(text, "2024-03-05T06:07:08.123456789");
    assert_eq!(kmf::timestamp::parse_ts(&text), Some(t));
    assert_eq!(kmf::timestamp::parse_ts("2024-13-05T06:07:08.123456789"), None);
    assert_eq!(kmf::timestamp::parse_ts("garbage"), None);
    let epoch = Timestamp::epoch();
    assert_eq!(epoch.render(), "1970-01-01T00:00:00.000000000");
}

#[test]
fn locator_parses_and_renders_back() {
    let l = Locator::parse("https://example.org/a?b=c").unwrap();
    assert_eq!(l.scheme, "https");
    assert_eq!(l.rest, "//example.org/a?b=c");
    assert_eq!(l.text(), "https://example.org/a?b=c");
    assert!(Locator::parse("no-colon-here").is_none());
    assert!(Locator::parse(":starts-with-colon").is_none());
}
