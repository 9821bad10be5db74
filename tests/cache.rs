use mcstatus_http::{
    canonicalize, plan_address, Endpoint, FetchError, IpAddress, Lookup, MonitorOutput,
    ServerAddr, ServerStatus, StatusCache,
};

fn key(name: &str) -> ServerAddr {
    let plan = plan_address(name).unwrap();
    canonicalize(&plan, Some(vec![IpAddress::V4(0x0a00_0001)])).unwrap()
}

fn status(motd: &str) -> ServerStatus {
    ServerStatus {
        requested_url: Endpoint { ip: IpAddress::V4(0x0a00_0001), port: 25565 },
        exit_code: 0,
        output: Some(MonitorOutput {
            version: "1.20.1".to_owned(),
            online_player_count: 1,
            max_player_count: 10,
            motd: motd.to_owned(),
        }),
        error: None,
    }
}

fn motd_of(l: &Lookup) -> Option<String> {
    match l {
        Lookup::Hit(s) => s.output.as_ref().map(|o| o.motd.clone()),
        _ => None,
    }
}

#[test]
fn concurrent_lookups_share_one_fetch() {
    let mut cache: StatusCache<u32> = StatusCache::new(100, 10, None);
    let k = key("play.example");
    let mut drives = 0;
    for (t, w) in [(0u64, 1u32), (1, 2), (1, 3), (2, 4)] {
        match cache.begin(&k, t, w) {
            Lookup::Drive => drives += 1,
            Lookup::Join => {}
            Lookup::Hit(_) => panic!("nothing is cached yet"),
        }
    }
    assert_eq!(drives, 1);
    assert!(cache.in_flight(&k));
    let waiters = cache.complete(&k, &Ok(status("a")), 3);
    assert_eq!(waiters, vec![1, 2, 3, 4]);
    assert!(!cache.in_flight(&k));
    assert_eq!(motd_of(&cache.begin(&k, 4, 5)).as_deref(), Some("a"));
}

#[test]
fn failure_is_not_cached() {
    let mut cache: StatusCache<u32> = StatusCache::new(100, 10, None);
    let k = key("down.example");
    assert!(matches!(cache.begin(&k, 0, 1), Lookup::Drive));
    assert!(matches!(cache.begin(&k, 0, 2), Lookup::Join));
    let failed: Result<ServerStatus, FetchError> = Err(FetchError::SpawnFailed("no such file".to_owned()));
    let waiters = cache.complete(&k, &failed, 1);
    assert_eq!(waiters, vec![1, 2]);
    assert!(!cache.contains(&k));
    assert_eq!(cache.len(), 0);
    assert!(matches!(cache.begin(&k, 1, 3), Lookup::Drive));
}

#[test]
fn reported_failure_is_cached() {
    let mut cache: StatusCache<u32> = StatusCache::new(100, 10, None);
    let k = key("down.example");
    assert!(matches!(cache.begin(&k, 0, 1), Lookup::Drive));
    let mut s = status("x");
    s.output = None;
    s.error = Some("timeout".to_owned());
    cache.complete(&k, &Ok(s), 0);
    match cache.begin(&k, 5, 2) {
        Lookup::Hit(s) => assert_eq!(s.error.as_deref(), Some("timeout")),
        _ => panic!("the reported failure should answer"),
    }
}

#[test]
fn entry_expires_after_time_to_live() {
    let mut cache: StatusCache<u32> = StatusCache::new(100, 10, None);
    let k = key("ttl.example");
    assert!(matches!(cache.begin(&k, 100, 1), Lookup::Drive));
    cache.complete(&k, &Ok(status("fresh")), 100);
    assert_eq!(motd_of(&cache.begin(&k, 109, 2)).as_deref(), Some("fresh"));
    assert!(matches!(cache.begin(&k, 110, 3), Lookup::Drive));
    assert!(!cache.contains(&k));
}

#[test]
fn entry_expires_when_idle() {
    let mut cache: StatusCache<u32> = StatusCache::new(100, 1000, Some(5));
    let k = key("idle.example");
    assert!(matches!(cache.begin(&k, 0, 1), Lookup::Drive));
    cache.complete(&k, &Ok(status("s")), 0);
    assert!(matches!(cache.begin(&k, 4, 2), Lookup::Hit(_)));
    assert!(matches!(cache.begin(&k, 8, 3), Lookup::Hit(_)));
    assert!(matches!(cache.begin(&k, 13, 4), Lookup::Drive));
}

#[test]
fn capacity_evicts_least_recently_used() {
    let mut cache: StatusCache<u32> = StatusCache::new(2, 1000, None);
    let a = key("a.example");
    let b = key("b.example");
    let c = key("c.example");
    for (i, k) in [&a, &b].into_iter().enumerate() {
        assert!(matches!(cache.begin(k, i as u64, 0), Lookup::Drive));
        cache.complete(k, &Ok(status("v")), i as u64);
    }
    // Reading `a` makes `b` the least recently used.
    assert!(matches!(cache.begin(&a, 2, 0), Lookup::Hit(_)));
    assert!(matches!(cache.begin(&c, 3, 0), Lookup::Drive));
    cache.complete(&c, &Ok(status("v")), 3);
    assert_eq!(cache.len(), 2);
    assert!(cache.contains(&a));
    assert!(!cache.contains(&b));
    assert!(cache.contains(&c));
    assert!(matches!(cache.begin(&b, 4, 0), Lookup::Drive));
}

#[test]
fn zero_capacity_stores_nothing() {
    let mut cache: StatusCache<u32> = StatusCache::new(0, 1000, None);
    let k = key("z.example");
    assert!(matches!(cache.begin(&k, 0, 1), Lookup::Drive));
    assert_eq!(cache.complete(&k, &Ok(status("v")), 0), vec![1]);
    assert_eq!(cache.len(), 0);
    assert!(matches!(cache.begin(&k, 0, 2), Lookup::Drive));
}

#[test]
fn complete_without_fetch_releases_nobody() {
    let mut cache: StatusCache<u32> = StatusCache::new(4, 1000, None);
    let k = key("n.example");
    assert!(cache.complete(&k, &Ok(status("v")), 0).is_empty());
    assert!(cache.contains(&k));
}
