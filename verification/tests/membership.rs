use tmzgua::say_cache::SayCache;

#[test]
fn refresh_makes_active_for_window() {
    let mut c = SayCache::new(String::from("/tmp/say"));
    c.refresh(42, 100, 50);
    assert!(c.is_active(42, 100));
    assert!(c.is_active(42, 101));
    assert!(c.is_active(42, 149));
    assert!(!c.is_active(42, 150));
    assert!(!c.is_active(42, 151));
    assert!(!c.is_active(42, u64::MAX));
}

#[test]
fn active_even_before_refresh_time_query() {
    // activity is a pure function of the expiry: queries before the refresh
    // time also see the entry
    let mut c = SayCache::new(String::from("/tmp/say"));
    c.refresh(7, 1000, 10);
    assert!(c.is_active(7, 0));
    assert!(!c.is_active(7, 1010));
}

#[test]
fn unknown_user_is_inactive() {
    let c = SayCache::new(String::from("/tmp/say"));
    assert!(!c.is_active(1, 0));
    assert_eq!(c.len(), 0);
}

#[test]
fn revoke_is_immediate() {
    let mut c = SayCache::new(String::from("/tmp/say"));
    c.refresh(42, 100, 1000);
    assert!(c.is_active(42, 101));
    c.revoke(42);
    assert!(!c.is_active(42, 101));
    assert!(!c.is_active(42, 100));
    assert_eq!(c.len(), 0);
}

#[test]
fn revoke_absent_is_noop() {
    let mut c = SayCache::new(String::from("/tmp/say"));
    c.refresh(1, 0, 10);
    c.revoke(2);
    assert!(c.is_active(1, 5));
    assert_eq!(c.len(), 1);
}

#[test]
fn refresh_replaces_never_duplicates() {
    let mut c = SayCache::new(String::from("/tmp/say"));
    c.refresh(42, 100, 50);
    c.refresh(42, 200, 50);
    c.refresh(42, 300, 50);
    assert_eq!(c.len(), 1);
    // the last refresh decides the expiry
    assert!(c.is_active(42, 349));
    assert!(!c.is_active(42, 350));
    c.refresh(43, 300, 50);
    assert_eq!(c.len(), 2);
}

#[test]
fn refresh_extends_expiry() {
    let mut c = SayCache::new(String::from("/tmp/say"));
    c.refresh(42, 100, 50);
    assert!(!c.is_active(42, 170));
    c.refresh(42, 140, 50);
    assert!(c.is_active(42, 170));
    assert!(!c.is_active(42, 190));
}

#[test]
fn to_vec_lists_only_unexpired() {
    let mut c = SayCache::new(String::from("/tmp/say"));
    c.refresh(1, 0, 100);
    c.refresh(2, 0, 10);
    c.refresh(3, 0, 100);
    let mut v = c.to_vec(50);
    v.sort();
    assert_eq!(v, vec![1, 3]);
    let all = c.to_vec(5);
    assert_eq!(all.len(), 3);
    let none = c.to_vec(100);
    assert!(none.is_empty());
}

#[test]
fn from_users_grants_full_window_and_dedups() {
    let users = vec![1u64, 2, 2, 3];
    let c = SayCache::from_users(&users, String::from("/tmp/say"), 1000, 100);
    assert_eq!(c.len(), 3);
    assert!(c.is_active(1, 1099));
    assert!(c.is_active(2, 1099));
    assert!(c.is_active(3, 1099));
    assert!(!c.is_active(1, 1100));
    assert!(!c.is_active(4, 1000));
    assert_eq!(c.path(), "/tmp/say");
}

#[test]
fn path_is_kept() {
    let c = SayCache::new(String::from("/var/cache/one"));
    assert_eq!(c.path(), "/var/cache/one");
}
