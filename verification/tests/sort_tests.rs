use rproc::processes::sort::{parse_sort_prefs, render_sort_prefs, SortKey};
use rproc::processes::rows::{int_from_key, key_from_int, SortChoice};

#[test]
fn processes_sort_key_roundtrip_all_variants() {
    for k in [
        SortKey::Name,
        SortKey::Pid,
        SortKey::User,
        SortKey::Cpu,
        SortKey::Mem,
        SortKey::Disk,
        SortKey::Status,
    ] {
        let s = k.as_str();
        assert_eq!(SortKey::from_str(s), Some(k), "roundtrip for {s}");
    }
}

#[test]
fn processes_sort_key_from_str_rejects_unknown() {
    assert_eq!(SortKey::from_str(""), None);
    assert_eq!(SortKey::from_str("not-a-key"), None);
    assert_eq!(SortKey::from_str("cpu"), None);
}

#[test]
fn sort_tests_sort_key_roundtrip_all_variants() {
    for k in [
        SortKey::Name,
        SortKey::Pid,
        SortKey::User,
        SortKey::Cpu,
        SortKey::Mem,
        SortKey::Disk,
        SortKey::Status,
    ] {
        let s = k.as_str();
        assert_eq!(SortKey::from_str(s), Some(k), "roundtrip for {s}");
    }
}

#[test]
fn sort_tests_sort_key_from_str_rejects_unknown() {
    assert_eq!(SortKey::from_str(""), None);
    assert_eq!(SortKey::from_str("not-a-key"), None);
    assert_eq!(SortKey::from_str("cpu"), None);
}

#[test]
fn processes_tests_sort_key_roundtrip_all_variants() {
    for k in [
        SortKey::Name,
        SortKey::Pid,
        SortKey::User,
        SortKey::Cpu,
        SortKey::Mem,
        SortKey::Disk,
        SortKey::Status,
    ] {
        let s = k.as_str();
        assert_eq!(SortKey::from_str(s), Some(k), "roundtrip for {s}");
    }
}

#[test]
fn processes_tests_sort_key_from_str_rejects_unknown() {
    assert_eq!(SortKey::from_str(""), None);
    assert_eq!(SortKey::from_str("not-a-key"), None);
    assert_eq!(SortKey::from_str("cpu"), None);
}

#[test]
fn sort_prefs_text_round_trip() {
    for k in [SortKey::Name, SortKey::Pid, SortKey::User, SortKey::Cpu, SortKey::Mem, SortKey::Disk, SortKey::Status] {
        for d in [false, true] {
            let text = render_sort_prefs(k, d);
            assert_eq!(parse_sort_prefs(&text), Some((k, d)));
        }
    }
    assert_eq!(render_sort_prefs(SortKey::Mem, false), "sort=Mem\ndescending=false\n");
}

#[test]
fn sort_prefs_partial_text_returns_none() {
    assert_eq!(parse_sort_prefs("sort=Cpu\n"), None);
    assert_eq!(parse_sort_prefs("descending=true\n"), None);
    assert_eq!(parse_sort_prefs(""), None);
    assert_eq!(parse_sort_prefs("sort=Bogus\ndescending=true\n"), None);
    assert_eq!(parse_sort_prefs("sort= Pid \r\ndescending=false"), Some((SortKey::Pid, false)));
    assert_eq!(parse_sort_prefs("sort=Pid\nsort=Mem\ndescending=true\n"), Some((SortKey::Mem, true)));
}

#[test]
fn sort_key_default_is_cpu() {
    assert_eq!(SortKey::default(), SortKey::Cpu);
}

#[test]
fn key_ints_round_trip() {
    for i in 0..7 {
        assert_eq!(int_from_key(key_from_int(i)), i);
    }
    assert_eq!(key_from_int(42), SortKey::Cpu);
    assert_eq!(key_from_int(-1), SortKey::Cpu);
}

#[test]
fn toggle_sort_flips_or_switches() {
    let mut c = SortChoice::new(None);
    assert_eq!((c.sort, c.descending), (SortKey::Cpu, true));
    c.toggle_sort(3);
    assert_eq!((c.sort, c.descending), (SortKey::Cpu, false));
    c.toggle_sort(3);
    assert_eq!((c.sort, c.descending), (SortKey::Cpu, true));
    c.toggle_sort(0);
    assert_eq!((c.sort, c.descending), (SortKey::Name, false));
    c.toggle_sort(4);
    assert_eq!((c.sort, c.descending), (SortKey::Mem, true));
    let loaded = SortChoice::new(Some((SortKey::User, false)));
    assert_eq!((loaded.sort, loaded.descending), (SortKey::User, false));
}
