use monolith::asset::Asset;
use monolith::asset::Error;
use monolith::resources::DemoResource;
use monolith::resources::InertResource;
use monolith::resources::Resource;
use monolith::scan::find_tokens;
use monolith::scan::Span;
use monolith::tree::AssetTree;
use monolith::util::data_to_dataurl;
use monolith::util::detect_mimetype;

fn text_tree(url: &str) -> AssetTree {
    AssetTree::new(Asset::new(url.to_string(), "text/plain".to_string()))
}

#[test]
fn splice_replaces_inner_span_only() {
    let mut tree = text_tree("http://h/");
    let children = tree
        .download(0, Ok(b"preamble 'child.txt' postamble".to_vec()))
        .unwrap();
    assert_eq!(children, vec![1]);
    assert_eq!(tree.assets[1].url, "http://h/child.txt");
    assert_eq!(tree.assets[1].mime_hint, "text/plain");
    assert_eq!(tree.download(1, Ok(b"hello".to_vec())).unwrap(), Vec::<usize>::new());
    assert_eq!(
        tree.try_stringify().unwrap(),
        "preamble 'data:text/plain;base64,aGVsbG8=' postamble"
    );
}

#[test]
fn unreachable_child_is_left_as_written() {
    let mut tree = text_tree("http://h/dir/page.txt");
    let children = tree
        .download(0, Ok(b"a 'http://nowhere.invalid/x.png' b \"ok.png\" c".to_vec()))
        .unwrap();
    assert_eq!(children, vec![1, 2]);
    assert_eq!(tree.assets[2].url, "http://h/dir/ok.png");
    let failed = tree.download(1, Err("connection refused".to_string()));
    assert_eq!(failed, Err(Error::HttpError("connection refused".to_string())));
    assert!(tree.assets[1].abandoned);
    assert_eq!(tree.download(2, Ok(vec![1, 2, 3])).unwrap(), Vec::<usize>::new());
    assert_eq!(
        tree.try_stringify().unwrap(),
        "a 'http://nowhere.invalid/x.png' b \"data:;base64,AQID\" c"
    );
}

#[test]
fn render_fails_until_children_are_loaded() {
    let mut tree = text_tree("http://h/");
    tree.download(0, Ok(b"see 'pic.png'".to_vec())).unwrap();
    assert_eq!(tree.render_asset(0), Err(Error::ResourceUnloaded));
    assert_eq!(tree.try_stringify(), Err(Error::ResourceUnloaded));
    tree.download(1, Ok(vec![0x89, b'P', b'N', b'G', 0x0d, 0x0a, 0x1a, 0x0a])).unwrap();
    assert_eq!(
        tree.try_stringify().unwrap(),
        "see 'data:image/png;base64,iVBORw0KGgo='"
    );
}

#[test]
fn unfetched_root_does_not_render() {
    let tree = text_tree("http://h/");
    assert!(tree.needs_fetch(0));
    assert_eq!(tree.try_stringify(), Err(Error::ResourceUnloaded));
}

#[test]
fn duplicate_references_give_separate_children() {
    let mut tree = text_tree("http://h/");
    let children = tree
        .download(0, Ok(b"'a.txt' and 'a.txt' and 'b'".to_vec()))
        .unwrap();
    assert_eq!(children, vec![1, 2, 3]);
    assert_eq!(tree.assets[1].url, "http://h/a.txt");
    assert_eq!(tree.assets[2].url, "http://h/a.txt");
    assert_eq!(tree.assets[3].url, "http://h/b");
    assert_eq!(tree.assets[3].mime_hint, "");
    assert!(matches!(tree.assets[1].data, Some(Resource::Demo(_))));
    assert!(matches!(tree.assets[3].data, Some(Resource::Inert(_))));
}

#[test]
fn download_of_loaded_asset_returns_existing_children() {
    let mut tree = text_tree("http://h/");
    tree.download(0, Ok(b"'x' 'y'".to_vec())).unwrap();
    let again = tree.download(0, Ok(b"'z'".to_vec())).unwrap();
    assert_eq!(again, vec![1, 2]);
    assert_eq!(tree.assets.len(), 3);
}

#[test]
fn invalid_utf8_text_is_a_parse_error() {
    let mut tree = text_tree("http://h/");
    assert_eq!(tree.download(0, Ok(vec![0xff, 0xfe])), Err(Error::ParseError));
    assert!(tree.assets[0].abandoned);
}

#[test]
fn download_without_resource_is_missing_resource() {
    let mut asset = Asset::new("http://h/".to_string(), String::new());
    assert_eq!(asset.download(Ok(vec![1])), Err(Error::MissingResource));
    asset.auto_select_resource_type();
    assert!(matches!(asset.data, Some(Resource::Inert(_))));
    assert_eq!(asset.download(Ok(vec![1])), Ok(()));
}

#[test]
fn text_hint_ignores_ascii_case() {
    let mut asset = Asset::new("http://h/".to_string(), "Text/PLAIN".to_string());
    let chosen = asset.auto_select_resource_type();
    assert!(!chosen.has_data());
    assert!(matches!(asset.data, Some(Resource::Demo(_))));
    asset.mime_hint = String::new();
    assert!(matches!(asset.auto_select_resource_type(), Resource::Demo(_)));
    let mut other = Asset::new("http://h/".to_string(), "text/html".to_string());
    other.auto_select_resource_type();
    assert!(matches!(other.data, Some(Resource::Inert(_))));
}

#[test]
fn passthrough_round_trip() {
    let mut r = InertResource::new();
    assert_eq!(r.render(), Err(Error::ResourceUnloaded));
    let bytes = vec![0u8, 255, 10, 13];
    r.parse(bytes.clone()).unwrap();
    assert!(r.has_data());
    assert_eq!(r.render().unwrap(), bytes);
    assert!(r.needed_assets().is_empty());
    let mut empty = InertResource::new();
    empty.parse(Vec::new()).unwrap();
    assert_eq!(empty.render().unwrap(), Vec::<u8>::new());
}

#[test]
fn parse_twice_faults() {
    let mut r = InertResource::new();
    r.parse(vec![1]).unwrap();
    assert_eq!(r.parse(vec![2]), Err(Error::AlreadyParsed));
    assert_eq!(r.render().unwrap(), vec![1]);
    let mut d = DemoResource::new("http://h/".to_string());
    d.parse(b"'a'").unwrap();
    assert_eq!(d.parse(b"'b' 'c'"), Err(Error::AlreadyParsed));
    assert_eq!(d.resources.len(), 1);
    assert_eq!(d.resources[0].url, "http://h/a");
}

#[test]
fn text_resource_records_spans_and_hints() {
    let mut d = DemoResource::new("http://h/base/".to_string());
    assert!(!d.has_data());
    assert_eq!(d.render(&Vec::new()), Err(Error::ResourceUnloaded));
    d.parse("é 'notes.txt' \"../up.png' ''".as_bytes()).unwrap();
    assert_eq!(d.resources.len(), 2);
    assert_eq!((d.resources[0].start, d.resources[0].end), (3, 12));
    assert_eq!(d.resources[0].url, "http://h/base/notes.txt");
    assert_eq!(d.resources[0].mime_hint, "text/plain");
    assert_eq!((d.resources[1].start, d.resources[1].end), (15, 24));
    assert_eq!(d.resources[1].url, "http://h/up.png");
    assert_eq!(d.resources[1].mime_hint, "");
    let assets = d.needed_assets();
    assert_eq!(assets.len(), 2);
    assert_eq!(assets[1].url, "http://h/up.png");
    let out = d.render(&vec![Some("X".to_string()), None]).unwrap();
    assert_eq!(String::from_utf8(out).unwrap(), "é 'X' \"../up.png' ''");
}

#[test]
fn unresolvable_reference_is_skipped() {
    let mut d = DemoResource::new("http://h/".to_string());
    d.parse(b"'http://[oops' 'fine'").unwrap();
    assert_eq!(d.resources.len(), 1);
    assert_eq!(d.resources[0].url, "http://h/fine");
}

#[test]
fn tokens_need_quotes_and_no_whitespace() {
    let chars: Vec<char> = "'a b' \"cd' 'e\nf' '' x'y'".chars().collect();
    let spans = find_tokens(&chars);
    assert_eq!(
        spans,
        vec![Span { start: 7, end: 9 }, Span { start: 22, end: 23 }]
    );
    let nbsp: Vec<char> = "'a\u{a0}b' 'c'".chars().collect();
    assert_eq!(find_tokens(&nbsp), vec![Span { start: 7, end: 8 }]);
}

#[test]
fn sniffs_png() {
    let png = [0x89u8, b'P', b'N', b'G', 0x0d, 0x0a, 0x1a, 0x0a, 0, 0];
    assert_eq!(detect_mimetype(&png), "image/png");
    assert_eq!(detect_mimetype(b"plain words"), "");
    assert_eq!(detect_mimetype(b""), "");
}

#[test]
fn sniffs_in_table_order() {
    assert_eq!(detect_mimetype(b"GIF89a..."), "image/gif");
    assert_eq!(detect_mimetype(&[0xff, 0xd8, 0xff, 0xe0]), "image/jpeg");
    assert_eq!(detect_mimetype(b"ID3\x04"), "audio/mpeg");
    assert_eq!(detect_mimetype(b"<svg xmlns"), "image/svg+xml");
}

#[test]
fn riff_length_field_is_any_bytes() {
    assert_eq!(detect_mimetype(b"RIFF\x24\x08\x00\x00WEBPVP8 "), "image/webp");
    assert_eq!(detect_mimetype(b"RIFF\x24\x08\x00\x00WAVEfmt "), "audio/wav");
    assert_eq!(detect_mimetype(b"\x00\x00\x00\x18ftypmp42"), "video/mp4");
    assert_eq!(detect_mimetype(b"RIFF\x24\x08\x00\x00WEBP"), "");
}

#[test]
fn data_url_uses_explicit_or_sniffed_mime() {
    assert_eq!(data_to_dataurl("text/plain", b"hello"), "data:text/plain;base64,aGVsbG8=");
    assert_eq!(data_to_dataurl("", b"GIF87a"), "data:image/gif;base64,R0lGODdh");
    assert_eq!(data_to_dataurl("", b""), "data:;base64,");
}
