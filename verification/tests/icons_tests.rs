use rproc::graph::{pad, SLOTS};
use rproc::icons::raster::{buffer_from_bytes, decode_raster, is_svg_path};
use rproc::icons::theme::{
    active_theme, icon_probe_paths, inherits_of, join_path, theme_dirs, ThemeChain,
};
use rproc::icons::{
    cache_paths, cache_trusted, cached_uri_path, file_uri, make_key, parse_cache_text, serialize_cache, Request,
    Resolver, Response, UriCache,
};

#[test]
fn serialize_cache_round_trips_positive_and_negative_entries() {
    let mut cache = UriCache::new();
    cache.insert(
        "firefox\u{0}/usr/bin/firefox".to_string(),
        Some("file:///icons/firefox.png".to_string()),
    );
    cache.insert("kworker\u{0}".to_string(), None);

    let text = serialize_cache(&cache);

    let mut seen = std::collections::HashMap::new();
    for line in text.lines() {
        let (key, uri) = line.split_once('\t').unwrap();
        seen.insert(key.to_string(), uri.to_string());
    }
    assert_eq!(
        seen.get("firefox\u{0}/usr/bin/firefox").map(String::as_str),
        Some("file:///icons/firefox.png")
    );
    assert_eq!(seen.get("kworker\u{0}").map(String::as_str), Some(""));
}

#[test]
fn serialize_cache_skips_entries_with_tab_or_newline() {
    let mut cache = UriCache::new();
    cache.insert(
        "bad\tkey\u{0}".to_string(),
        Some("file:///x.png".to_string()),
    );
    cache.insert("bad\nkey\u{0}".to_string(), None);
    cache.insert("ok\u{0}".to_string(), Some("file:///ok.png".to_string()));

    let text = serialize_cache(&cache);

    assert_eq!(text.lines().count(), 1);
    assert!(text.starts_with("ok\u{0}\tfile:///ok.png"));
}

#[test]
fn parse_cache_text_reads_back_what_serialize_wrote() {
    let mut cache = UriCache::new();
    cache.insert("a\u{0}/bin/a".to_string(), Some("file:///a.png".to_string()));
    cache.insert("b\u{0}".to_string(), None);
    let pairs = parse_cache_text(&serialize_cache(&cache));
    assert_eq!(
        pairs,
        vec![
            ("a\u{0}/bin/a".to_string(), "file:///a.png".to_string()),
            ("b\u{0}".to_string(), String::new()),
        ]
    );
}

#[test]
fn make_key_joins_with_nul() {
    assert_eq!(make_key("firefox", "/usr/bin/firefox"), "firefox\u{0}/usr/bin/firefox");
    assert_ne!(make_key("ab", "c"), make_key("a", "bc"));
}

#[test]
fn cache_trusted_expires_after_a_week() {
    assert!(cache_trusted(None));
    assert!(cache_trusted(Some((604_800, 0))));
    assert!(!cache_trusted(Some((604_800, 1))));
    assert!(!cache_trusted(Some((604_801, 0))));
}

#[test]
fn file_uri_and_back() {
    let u = file_uri("/usr/share/icons/x.png");
    assert_eq!(u, "file:///usr/share/icons/x.png");
    assert_eq!(cached_uri_path(&u), Some("/usr/share/icons/x.png".to_string()));
    assert_eq!(cached_uri_path("http://x"), None);
}

#[test]
fn resolver_queues_one_request_per_key_and_answers_from_replies() {
    let mut r = Resolver::new(0);
    r.mark_worker_started();
    assert_eq!(r.icon_uri("firefox", "/usr/bin/firefox"), None);
    assert_eq!(r.icon_uri("firefox", "/usr/bin/firefox"), None);
    let reqs: Vec<Request> = r.take_requests();
    assert_eq!(reqs.len(), 1);
    assert_eq!(reqs[0].proc_name, "firefox");
    r.pump(vec![Response::Resolved {
        key: reqs[0].key.clone(),
        uri: Some("file:///f.png".to_string()),
    }]);
    assert_eq!(
        r.icon_uri("firefox", "/usr/bin/firefox"),
        Some("file:///f.png".to_string())
    );
    assert!(r.take_requests().is_empty());
}

#[test]
fn resolver_knows_desktop_entries_once_indexed() {
    let mut r = Resolver::new(0);
    assert!(!r.has_desktop_entry("firefox", ""));
    r.pump(vec![Response::IndexReady(vec!["firefox".to_string()])]);
    assert!(r.has_desktop_entry("firefox", ""));
    assert!(!r.has_desktop_entry("kworker", ""));
}

#[test]
fn resolver_saves_only_when_dirty() {
    let mut r = Resolver::new(0);
    assert_eq!(r.save_persistent(10), None);
    r.pump(vec![Response::Resolved { key: "k".to_string(), uri: None }]);
    let text = r.save_persistent(20).unwrap();
    assert_eq!(text, "k\t\n");
    assert_eq!(r.save_persistent(30), None);
}

#[test]
fn resolver_flush_waits_for_the_interval() {
    let mut r = Resolver::new(0);
    r.pump(vec![Response::Resolved { key: "k".to_string(), uri: None }]);
    assert_eq!(r.flush_if_due(1000), None);
    assert!(r.flush_if_due(6000).is_some());
}

#[test]
fn join_path_like_path_join() {
    assert_eq!(join_path("/usr/share/icons", "hicolor"), "/usr/share/icons/hicolor");
    assert_eq!(join_path("/usr/", "x"), "/usr/x");
    assert_eq!(join_path("/usr", "/abs"), "/abs");
}

#[test]
fn inherits_lists_parents_in_order() {
    let parents = inherits_of("[Icon Theme]\nName=Yaru\nInherits= Humanity , hicolor,,\n");
    let names: Vec<String> = parents.iter().map(|p| p.iter().collect()).collect();
    assert_eq!(names, vec!["Humanity", "hicolor"]);
}

#[test]
fn theme_chain_adds_parents_once_then_defaults() {
    let mut chain = ThemeChain::new("Yaru");
    assert_eq!(chain.pending(), Some("Yaru".to_string()));
    chain.add_parents("Inherits=Humanity,hicolor\n");
    chain.add_parents("Inherits=Humanity\n");
    chain.advance();
    assert_eq!(chain.pending(), Some("Humanity".to_string()));
    chain.advance();
    chain.advance();
    assert_eq!(chain.pending(), None);
    assert_eq!(
        chain.finish(),
        vec!["Yaru", "Humanity", "hicolor", "Adwaita", "breeze", "breeze-dark"]
    );
}

#[test]
fn active_theme_strips_quotes_or_falls_back() {
    assert_eq!(active_theme(Some("'Adwaita'\n")), "Adwaita");
    assert_eq!(active_theme(Some("  ''  ")), "hicolor");
    assert_eq!(active_theme(None), "hicolor");
}

#[test]
fn theme_dirs_puts_each_theme_under_each_base() {
    let themes = vec!["a".to_string(), "b".to_string()];
    let bases = vec!["/x".to_string(), "/y".to_string()];
    assert_eq!(theme_dirs(&themes, &bases), vec!["/x/a", "/y/a", "/x/b", "/y/b"]);
}

#[test]
fn icon_probe_paths_order() {
    let dirs = vec!["/t".to_string()];
    let pix = vec!["/usr/share/pixmaps".to_string()];
    let paths = icon_probe_paths("foo-symbolic", &dirs, &pix);
    assert_eq!(paths.len(), 2 * 8 * 7 * 4 + 2 * 4);
    assert_eq!(paths[0], "/t/48x48/apps/foo-symbolic.svg");
    assert_eq!(paths[1], "/t/48x48/apps/foo-symbolic.png");
    assert_eq!(paths[8 * 7 * 4], "/t/48x48/apps/foo.svg");
    assert_eq!(paths[2 * 8 * 7 * 4], "/usr/share/pixmaps/foo-symbolic.svg");
    assert_eq!(paths.last().unwrap(), "/usr/share/pixmaps/foo.jpeg");
}

fn png_bytes(w: u32, h: u32) -> Vec<u8> {
    let img = image::RgbaImage::from_pixel(w, h, image::Rgba([10, 20, 30, 255]));
    let mut out = std::io::Cursor::new(Vec::new());
    img.write_to(&mut out, image::ImageFormat::Png).unwrap();
    out.into_inner()
}

#[test]
fn decode_raster_scales_to_the_row_size() {
    let px = decode_raster("/icons/app.png", &png_bytes(48, 48), 20).unwrap();
    assert_eq!(px.len(), 20 * 20 * 4);
    assert_eq!(&px[0..4], &[10, 20, 30, 255]);
    let same = decode_raster("/icons/APP.PNG", &png_bytes(5, 3), 5).unwrap();
    assert_eq!(same.len(), 5 * 5 * 4);
}

#[test]
fn decode_raster_refuses_unknown_or_broken_files() {
    assert!(decode_raster("/icons/app.xpm", &png_bytes(4, 4), 8).is_none());
    assert!(decode_raster("/icons/noext", &png_bytes(4, 4), 8).is_none());
    assert!(decode_raster("/icons/app.png", b"not a png", 8).is_none());
}

#[test]
fn svg_paths_and_buffers() {
    assert!(is_svg_path("/usr/share/icons/x.SVG"));
    assert!(!is_svg_path("/usr/share/icons/x.png"));
    assert!(!is_svg_path("/usr/share/icons/svg"));
    assert_eq!(buffer_from_bytes(vec![0; 16], 2), Some(vec![0; 16]));
    assert_eq!(buffer_from_bytes(vec![0; 15], 2), None);
}

#[test]
fn graph_pad_keeps_newest_and_pads_with_oldest() {
    let v: Vec<u32> = (0..70).collect();
    let p = pad(v, 0);
    assert_eq!(p.len(), SLOTS);
    assert_eq!(p[0], 10);
    assert_eq!(p[SLOTS - 1], 69);
    let p = pad(vec![7, 8], 0);
    assert_eq!(p.len(), SLOTS);
    assert_eq!(p[0], 7);
    assert_eq!(&p[SLOTS - 2..], &[7, 8]);
    assert_eq!(pad(Vec::<u32>::new(), 5), vec![5; SLOTS]);
}

#[test]
fn cache_text_seeds_kept_lines_and_later_lines_win() {
    let a = make_key("firefox", "/usr/bin/firefox");
    let b = make_key("gone", "");
    let c = make_key("miss", "");
    let d = make_key("web", "");
    let content = format!(
        "{a}\tfile:///old.png\n{b}\tfile:///gone.png\n{c}\t\nno tab here\n{d}\thttp://x/y.png\n{a}\tfile:///new.png\n"
    );
    let paths = cache_paths(&content);
    assert_eq!(
        paths,
        vec![
            Some("/old.png".to_string()),
            Some("/gone.png".to_string()),
            None,
            None,
            Some("/new.png".to_string()),
        ]
    );
    let exists = vec![true, false, false, true, true];
    let mut r = Resolver::new(0);
    r.load_cache_text(&content, &exists);
    assert_eq!(r.icon_uri("firefox", "/usr/bin/firefox"), Some("file:///new.png".to_string()));
    assert_eq!(r.icon_uri("miss", ""), None);
    // A dropped line makes the cache dirty, so it is written back.
    let text = r.save_persistent(1).unwrap();
    assert!(text.contains("file:///new.png"));
    assert!(!text.contains("gone"));
    assert!(!text.contains("http://"));
}
