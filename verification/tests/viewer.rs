use codesync::browser::{local_listing, local_preview, Entry, Kind, Listing, Preview, PREVIEW_BYTES};
use codesync::viewer::{join, parent, Browser};

fn entry(name: &str, kind: Kind, size: u64) -> Entry {
    Entry {
        name: name.into(),
        kind,
        size,
    }
}

#[test]
fn remote_viewer_asks_once_and_accepts_only_its_server() {
    let mut b = Browser::remote(7);
    assert!(b.waiting);
    let req = b.take_request().unwrap();
    assert_eq!(req.server, 7);
    assert_eq!(req.path, "");
    assert!(!req.preview);
    assert!(b.take_request().is_none());

    let other = Listing {
        relative: "elsewhere".into(),
        entries: vec![entry("x", Kind::File, 1)],
        limited: false,
    };
    b.receive_listing(8, other);
    assert!(b.waiting);
    assert!(b.entries.is_empty());

    let listing = Listing {
        relative: "notes".into(),
        entries: vec![entry("sub", Kind::Directory, 0), entry("a.txt", Kind::File, 3)],
        limited: true,
    };
    b.receive_listing(7, listing);
    assert!(!b.waiting);
    assert_eq!(b.relative, "notes");
    assert_eq!(b.entries.len(), 2);
    assert!(b.limited);
    assert_eq!(b.heading(), "notes");

    b.select(0);
    let req = b.take_request().unwrap();
    assert_eq!(req.path, "notes/sub");
    assert!(!req.preview);
    assert!(b.waiting);

    // Clicks while waiting do nothing.
    b.select(1);
    assert!(b.take_request().is_none());

    b.finish_remote(Some("Cannot list directory".into()));
    assert!(!b.waiting);
    assert_eq!(b.error.as_deref(), Some("Cannot list directory"));
    // A second finish after the answer changes nothing.
    b.finish_remote(None);
    assert_eq!(b.error.as_deref(), Some("Cannot list directory"));

    b.select(1);
    let req = b.take_request().unwrap();
    assert_eq!(req.path, "notes/a.txt");
    assert!(req.preview);
    assert!(b.error.is_none());
    b.receive_preview(
        7,
        Preview {
            name: "notes/a.txt".into(),
            text: "abc".into(),
            truncated: false,
        },
    );
    assert_eq!(b.preview.as_ref().unwrap().text, "abc");
    assert!(!b.waiting);
}

#[test]
fn local_viewer_goes_up_refreshes_and_refuses_links() {
    let mut b = Browser::new("/home/user/notes".into());
    assert!(b.listing);
    let req = b.take_local_request().unwrap();
    assert_eq!(req.relative, "");
    assert!(!req.preview);
    assert!(!b.can_go_up());
    b.finish_listing(Ok(Listing {
        relative: "a/b".into(),
        entries: vec![
            entry(".hidden", Kind::File, 1),
            entry("shown", Kind::File, 2),
            entry("ln", Kind::Link, 0),
        ],
        limited: false,
    }));
    assert!(!b.listing);
    assert_eq!(b.heading(), "/a/b");
    assert_eq!(b.visible(), vec![1, 2]);
    b.show_hidden = true;
    assert_eq!(b.visible(), vec![0, 1, 2]);

    b.select(2);
    assert_eq!(
        b.error.as_deref(),
        Some("Links and special files are listed but not opened in the viewer.")
    );
    assert!(b.take_local_request().is_none());

    assert!(b.can_go_up());
    b.go_up();
    let req = b.take_local_request().unwrap();
    assert_eq!(req.relative, "a");
    assert!(b.error.is_none());
    // Up and refresh wait for the listing.
    b.go_up();
    b.refresh();
    assert!(b.take_local_request().is_none());
    b.finish_listing(Err("Cannot list directory: denied".into()));
    assert_eq!(b.error.as_deref(), Some("Cannot list directory: denied"));
    assert_eq!(b.relative, "a/b");
    b.refresh();
    assert_eq!(b.take_local_request().unwrap().relative, "a/b");

    b.finish_listing(Ok(Listing {
        relative: "".into(),
        entries: vec![entry("f.txt", Kind::File, 4)],
        limited: false,
    }));
    assert_eq!(b.heading(), "/");
    b.select(0);
    let req = b.take_local_request().unwrap();
    assert_eq!(req.relative, "f.txt");
    assert!(req.preview);
    assert!(b.loading_preview);
    b.finish_preview(Err("Only regular files can be previewed.".into()));
    assert!(!b.loading_preview);
    assert_eq!(b.error.as_deref(), Some("Only regular files can be previewed."));
}

#[test]
fn paths_join_and_split_at_slashes() {
    assert_eq!(join("", "x"), "x");
    assert_eq!(join("a/b", "x"), "a/b/x");
    assert_eq!(parent("a/b/c"), "a/b");
    assert_eq!(parent("a"), "");
    assert_eq!(parent(""), "");
}

#[test]
fn local_listing_puts_directories_first_then_names() {
    let listing = local_listing(
        "".into(),
        vec![
            entry("b", Kind::File, 1),
            entry("z", Kind::Directory, 0),
            entry("a", Kind::File, 1),
            entry("l", Kind::Link, 0),
            entry("c", Kind::Directory, 0),
        ],
        true,
    );
    let names: Vec<&str> = listing.entries.iter().map(|e| e.name.as_str()).collect();
    assert_eq!(names, vec!["c", "z", "a", "b", "l"]);
    assert!(listing.limited);
}

#[test]
fn local_preview_accepts_text_and_cut_characters_only() {
    let p = local_preview("notes/a.txt", b"line\r\n\ttabbed");
    assert_eq!(p.name, "notes/a.txt");
    assert_eq!(p.text, "line\r\n\ttabbed");
    assert!(!p.truncated);

    let notice = "Binary or non-UTF-8 file \u{2014} no text preview available.";
    assert_eq!(local_preview("b", b"a\x00b").text, notice);
    assert_eq!(local_preview("b", &[0x66, 0xff, 0x66]).text, notice);
    // U+FFFD written out is text.
    assert_eq!(local_preview("b", "\u{fffd}".as_bytes()).text, "\u{fffd}");

    // A file longer than the limit whose cut falls inside a character keeps
    // the text before that character.
    let limit = PREVIEW_BYTES as usize;
    let mut bytes = vec![b'x'; limit - 1];
    bytes.extend_from_slice("é".as_bytes());
    bytes.push(b'y');
    let p = local_preview("big", &bytes);
    assert!(p.truncated);
    assert_eq!(p.text.len(), limit - 1);
    // The same bytes without the cut are not UTF-8 text.
    let mut broken = vec![b'x'; 10];
    broken.push(0xc3);
    assert_eq!(local_preview("small", &broken).text, notice);
}
