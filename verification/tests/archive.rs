use std::io::Read;

use zipserve::compression::brotli_decompressed_crc32;
use zipserve::compression::compress_brotli;
use zipserve::compression::crc32;
use zipserve::compression::decompress_entry;
use zipserve::errors::Error;
use zipserve::handler::Handler;
use zipserve::http::HeaderName;
use zipserve::http::StatusCode;
use zipserve::zip::LocalFile;

const STORED: u16 = 0;
const DEFLATE: u16 = 8;

fn push16(out: &mut Vec<u8>, v: u16) {
    out.extend_from_slice(&v.to_le_bytes());
}

fn push32(out: &mut Vec<u8>, v: u32) {
    out.extend_from_slice(&v.to_le_bytes());
}

struct ZipEntry {
    name: Vec<u8>,
    method: u16,
    crc: u32,
    payload: Vec<u8>,
    uncompressed_len: u32,
}

fn stored(name: &str, data: &[u8]) -> ZipEntry {
    ZipEntry {
        name: name.as_bytes().to_vec(),
        method: STORED,
        crc: crc32fast::hash(data),
        payload: data.to_vec(),
        uncompressed_len: data.len() as u32,
    }
}

fn deflated(name: &str, data: &[u8]) -> ZipEntry {
    // One stored deflate block: BFINAL=1, BTYPE=00, LEN, NLEN, raw data.
    let len = data.len() as u16;
    let mut payload = vec![0x01];
    payload.extend_from_slice(&len.to_le_bytes());
    payload.extend_from_slice(&(!len).to_le_bytes());
    payload.extend_from_slice(data);
    ZipEntry {
        name: name.as_bytes().to_vec(),
        method: DEFLATE,
        crc: crc32fast::hash(data),
        payload,
        uncompressed_len: data.len() as u32,
    }
}

fn make_zip(entries: &[ZipEntry]) -> Vec<u8> {
    let mut out = Vec::new();
    let mut locals = Vec::new();
    for e in entries {
        let lhp = out.len() as u32;
        out.extend_from_slice(&[0x50, 0x4b, 0x03, 0x04]);
        push16(&mut out, 20);
        push16(&mut out, 0);
        push16(&mut out, e.method);
        push16(&mut out, 0);
        push16(&mut out, 0);
        push32(&mut out, e.crc);
        push32(&mut out, e.payload.len() as u32);
        push32(&mut out, e.uncompressed_len);
        push16(&mut out, e.name.len() as u16);
        push16(&mut out, 0);
        out.extend_from_slice(&e.name);
        out.extend_from_slice(&e.payload);
        locals.push(lhp);
    }
    let cd_offset = out.len() as u32;
    for (e, lhp) in entries.iter().zip(locals.iter()) {
        out.extend_from_slice(&[0x50, 0x4b, 0x01, 0x02]);
        push16(&mut out, 20);
        push16(&mut out, 20);
        push16(&mut out, 0);
        push16(&mut out, e.method);
        push16(&mut out, 0);
        push16(&mut out, 0);
        push32(&mut out, e.crc);
        push32(&mut out, e.payload.len() as u32);
        push32(&mut out, e.uncompressed_len);
        push16(&mut out, e.name.len() as u16);
        push16(&mut out, 0);
        push16(&mut out, 0);
        push16(&mut out, 0);
        push16(&mut out, 0);
        push32(&mut out, 0);
        push32(&mut out, *lhp);
        out.extend_from_slice(&e.name);
    }
    let cd_size = out.len() as u32 - cd_offset;
    out.extend_from_slice(&[0x50, 0x4b, 0x05, 0x06]);
    push16(&mut out, 0);
    push16(&mut out, 0);
    push16(&mut out, entries.len() as u16);
    push16(&mut out, entries.len() as u16);
    push32(&mut out, cd_size);
    push32(&mut out, cd_offset);
    push16(&mut out, 0);
    out
}

fn brotli_quality(data: &[u8], quality: i32) -> Vec<u8> {
    let params = brotli::enc::BrotliEncoderParams {
        quality,
        ..Default::default()
    };
    let mut out = Vec::new();
    brotli::CompressorReader::with_params(data, 4096, &params)
        .read_to_end(&mut out)
        .unwrap();
    out
}

fn brotli_decode(data: &[u8]) -> Vec<u8> {
    let mut out = Vec::new();
    let mut cursor = std::io::Cursor::new(data);
    brotli::BrotliDecompress(&mut cursor, &mut out).unwrap();
    out
}

fn header_value(entry: &zipserve::handler::Entry, key: HeaderName) -> Option<Vec<u8>> {
    entry
        .headers
        .iter()
        .find(|l| l.key == key)
        .map(|l| l.value.as_slice().to_vec())
}

fn response_header_value(r: &zipserve::handler::Response, key: HeaderName) -> Option<Vec<u8>> {
    r.headers
        .iter()
        .find(|l| l.key == key)
        .map(|l| l.value.as_slice().to_vec())
}

#[test]
fn end_to_end_table_and_conditional_get() {
    let html = b"<html></html>";
    let png = [0x89u8, 0x50, 0x4e, 0x47, 0x0d, 0x0a, 0x1a, 0x0a, 1, 2, 3];
    let zip = make_zip(&[deflated("root/index.html", html), stored("root/favicon.png", &png)]);
    let handler = Handler::builder()
        .with_zip_prefix("root/".to_string())
        .with_zip(zip)
        .try_build()
        .unwrap();

    let root = handler.entry("/").expect("root route");
    let etag = format!("{:x}", crc32fast::hash(html));
    assert_eq!(root.etag.as_deref(), Some(etag.as_str()));
    assert_eq!(header_value(root, HeaderName::ContentType).as_deref(), Some(b"text/html".as_slice()));

    let favicon = handler.entry("/favicon.png").expect("favicon route");
    assert!(favicon.etag.is_some());
    assert_eq!(header_value(favicon, HeaderName::ContentType).as_deref(), Some(b"image/png".as_slice()));
    assert!(header_value(favicon, HeaderName::ContentEncoding).is_none());
    assert_eq!(favicon.content.as_deref(), Some(png.as_slice()));

    let ok = handler.handle(b"GET", "/", None, None, None);
    assert_eq!(ok.status, StatusCode::OK);
    assert_eq!(
        response_header_value(&ok, HeaderName::ContentEncoding).as_deref(),
        Some(b"br".as_slice())
    );
    assert_eq!(brotli_decode(ok.body.as_deref().unwrap()), html.to_vec());

    let not_modified = handler.handle(b"GET", "/", None, Some(etag.as_bytes()), None);
    assert_eq!(not_modified.status, StatusCode::NotModified);
    assert!(not_modified.body.is_none());
    assert!(response_header_value(&not_modified, HeaderName::ContentLength).is_none());
    assert!(response_header_value(&not_modified, HeaderName::ContentEncoding).is_none());
}

#[test]
fn head_yields_get_headers_without_body() {
    let png = [1u8, 2, 3, 4];
    let zip = make_zip(&[stored("root/a.png", &png)]);
    let handler = Handler::builder()
        .with_zip_prefix("root/".to_string())
        .with_zip(zip)
        .try_build()
        .unwrap();
    let get = handler.handle(b"GET", "/a.png", None, None, None);
    let head = handler.handle(b"HEAD", "/a.png", None, None, None);
    assert_eq!(get.status, StatusCode::OK);
    assert_eq!(head.status, StatusCode::OK);
    assert_eq!(get.headers.len(), head.headers.len());
    for (g, h) in get.headers.iter().zip(head.headers.iter()) {
        assert_eq!(g.key, h.key);
        assert_eq!(g.value.as_slice(), h.value.as_slice());
    }
    assert_eq!(get.body.as_deref(), Some(png.as_slice()));
    assert!(head.body.is_none());
}

#[test]
fn request_state_machine_rejections() {
    let zip = make_zip(&[stored("root/a.txt", b"hello")]);
    let handler = Handler::builder()
        .with_zip_prefix("root/".to_string())
        .with_zip(zip)
        .try_build()
        .unwrap();
    assert_eq!(
        handler.handle(b"GET", "/a.txt", Some(b"5"), None, None).status,
        StatusCode::BadRequest
    );
    assert_eq!(
        handler.handle(b"GET", "/a.txt", Some(b"0"), None, None).status,
        StatusCode::OK
    );
    assert_eq!(
        handler.handle(b"POST", "/a.txt", None, None, None).status,
        StatusCode::MethodNotAllowed
    );
    assert_eq!(
        handler.handle(b"GET", "/missing", None, None, None).status,
        StatusCode::NotFound
    );
    assert_eq!(
        handler.handle(b"GET", "/a.txt", None, None, Some(b"mismatch")).status,
        StatusCode::PreconditionFailed
    );
}

#[test]
fn hidden_entries_never_reach_the_table() {
    let zip = make_zip(&[
        stored("root/.idea/modules.xml", b"x"),
        stored("root/.y.html", b"y"),
        stored("root/a/.b/c.html", b"z"),
        stored("root/ok.txt", b"ok"),
    ]);
    let handler = Handler::builder()
        .with_zip_prefix("root/".to_string())
        .with_zip(zip)
        .try_build()
        .unwrap();
    assert!(handler.entry("/.idea/modules.xml").is_none());
    assert!(handler.entry("/.y.html").is_none());
    assert!(handler.entry("/.y/").is_none());
    assert!(handler.entry("/a/.b/c/").is_none());
    assert!(handler.entry("/ok.txt").is_some());
}

#[test]
fn slash_route_gets_structural_companion() {
    let zip = make_zip(&[deflated("root/docs/index.html", b"<p>docs</p>")]);
    let handler = Handler::builder()
        .with_zip_prefix("root/".to_string())
        .with_zip(zip)
        .try_build()
        .unwrap();
    let main = handler.entry("/docs/").expect("slash route");
    assert!(main.etag.is_some());
    let companion = handler.entry("/docs").expect("companion route");
    assert!(companion.etag.is_none());
    assert!(companion.content.is_none());
    assert_eq!(
        header_value(companion, HeaderName::Location).as_deref(),
        Some(b"/docs/".as_slice())
    );
    let served = handler.handle(b"GET", "/docs", None, None, None);
    assert_eq!(served.status, StatusCode::PermanentRedirect);
    assert!(served.body.is_none());
}

#[test]
fn root_prefix_moves_routes_and_root_companion() {
    let zip = make_zip(&[deflated("root/index.html", b"<p>home</p>")]);
    let handler = Handler::builder()
        .with_zip_prefix("root/".to_string())
        .with_root_prefix("test/".to_string())
        .with_zip(zip)
        .try_build()
        .unwrap();
    assert!(handler.entry("/").is_none());
    let main = handler.entry("/test/").expect("prefixed root");
    assert!(main.etag.is_some());
    let companion = handler.entry("/test").expect("prefixed companion");
    assert!(companion.etag.is_none());
    assert_eq!(
        header_value(companion, HeaderName::Location).as_deref(),
        Some(b"/test/".as_slice())
    );
}

#[test]
fn redirect_marker_entry() {
    let zip = make_zip(&[stored("root/go.307", b"target.html extra")]);
    let handler = Handler::builder()
        .with_zip_prefix("root/".to_string())
        .with_zip(zip)
        .try_build()
        .unwrap();
    let marker = handler.entry("/go/").expect("marker route");
    assert!(marker.etag.is_some());
    assert!(marker.content.is_none());
    assert_eq!(
        header_value(marker, HeaderName::Location).as_deref(),
        Some(b"target.html".as_slice())
    );
    assert_eq!(
        header_value(marker, HeaderName::ContentLength).as_deref(),
        Some(b"0".as_slice())
    );
    let served = handler.handle(b"GET", "/go/", None, None, None);
    assert_eq!(served.status, StatusCode::TemporaryRedirect);
    assert!(served.body.is_none());
}

#[test]
fn sibling_bytes_reused_without_fresh_compression() {
    let data = b"compressible text compressible text compressible text";
    let sibling_blob = brotli_quality(data, 1);
    let fresh_blob = brotli_quality(data, 11);
    assert_ne!(sibling_blob, fresh_blob, "quality tiers must differ for this check");
    let zip = make_zip(&[
        deflated("root/a.txt", data),
        stored("root/a.txt.br", &sibling_blob),
    ]);
    let handler = Handler::builder()
        .with_zip_prefix("root/".to_string())
        .with_zip(zip)
        .try_build()
        .unwrap();
    let entry = handler.entry("/a.txt").expect("route");
    assert_eq!(entry.content.as_deref(), Some(sibling_blob.as_slice()));
    assert!(handler.entry("/a.txt.br").is_none());
}

#[test]
fn sibling_with_wrong_checksum_is_ignored() {
    let data = b"compressible text compressible text compressible text";
    let other = brotli_quality(b"something else entirely", 1);
    let zip = make_zip(&[
        deflated("root/a.txt", data),
        stored("root/a.txt.br", &other),
    ]);
    let handler = Handler::builder()
        .with_zip_prefix("root/".to_string())
        .with_zip(zip)
        .try_build()
        .unwrap();
    let entry = handler.entry("/a.txt").expect("route");
    assert_eq!(entry.content.as_deref(), Some(brotli_quality(data, 11).as_slice()));
}

#[test]
fn rebuild_keeps_unchanged_compressible_bytes() {
    let a = b"file a stays the same across both builds";
    let b1 = b"file b first version";
    let b2 = b"file b second version";
    let zip1 = make_zip(&[deflated("root/a.txt", a), deflated("root/b.txt", b1)]);
    let first = Handler::builder()
        .with_zip_prefix("root/".to_string())
        .with_zip(zip1)
        .try_build()
        .unwrap();
    let zip2 = make_zip(&[deflated("root/a.txt", a), deflated("root/b.txt", b2)]);
    let second = Handler::builder()
        .with_zip_prefix("root/".to_string())
        .with_diff(&first)
        .with_zip(zip2)
        .try_build()
        .unwrap();
    assert_eq!(
        first.entry("/a.txt").unwrap().content,
        second.entry("/a.txt").unwrap().content
    );
    assert_ne!(
        first.entry("/b.txt").unwrap().content,
        second.entry("/b.txt").unwrap().content
    );
}

#[test]
fn build_errors() {
    assert_eq!(
        Handler::builder().with_zip(b"not a zip".to_vec()).try_build().err(),
        Some(Error::CorruptArchive)
    );
    assert_eq!(Handler::builder().try_build().err(), Some(Error::CorruptArchive));

    let mut bad_method = stored("root/a.txt", b"hello");
    bad_method.method = 99;
    let zip = make_zip(&[bad_method]);
    assert_eq!(
        Handler::builder()
            .with_zip_prefix("root/".to_string())
            .with_zip(zip)
            .try_build()
            .err(),
        Some(Error::UnsupportedCompression)
    );

    let mut bad_name = stored("root/a.txt", b"hello");
    bad_name.name = vec![0x72, 0x6f, 0x6f, 0x74, 0x2f, 0xff, 0xfe];
    let zip = make_zip(&[bad_name]);
    assert_eq!(
        Handler::builder()
            .with_zip_prefix("root/".to_string())
            .with_zip(zip)
            .try_build()
            .err(),
        Some(Error::CorruptArchive)
    );

    let mut bad_len = deflated("root/a.txt", b"hello");
    bad_len.uncompressed_len = 4;
    let zip = make_zip(&[bad_len]);
    assert_eq!(
        Handler::builder()
            .with_zip_prefix("root/".to_string())
            .with_zip(zip)
            .try_build()
            .err(),
        Some(Error::CorruptArchive)
    );
}

#[test]
fn codec_helpers() {
    // Classic CRC32 check value.
    assert_eq!(crc32(b"123456789"), 0xcbf43926);

    let entry = deflated("x", b"abc");
    let decoded = decompress_entry(LocalFile {
        method: DEFLATE,
        crc32: entry.crc,
        uncompressed_size: 3,
        payload: entry.payload.clone(),
    })
    .unwrap();
    assert_eq!(decoded, b"abc".to_vec());
    assert_ne!(decoded, entry.payload);

    let raw = b"round trip through the general-purpose compressor";
    let encoded = compress_brotli(raw).unwrap();
    assert_ne!(encoded, raw.to_vec());
    assert_eq!(brotli_decompressed_crc32(&encoded), Some(crc32fast::hash(raw)));
    assert_eq!(brotli_decompressed_crc32(b"\xff\xff\xff\xff"), None);
}

#[test]
fn accept_finds_served_paths() {
    let zip = make_zip(&[stored("root/a.png", b"hello")]);
    let handler = Handler::builder()
        .with_zip_prefix("root/".to_string())
        .with_zip(zip)
        .try_build()
        .unwrap();
    assert!(handler.accept("/a.png").is_some());
    assert!(handler.accept("/other").is_none());
    let accepted = handler.accept("/a.png").unwrap();
    assert_eq!(accepted.entry().content.as_deref(), Some(b"hello".as_slice()));
}

#[test]
fn non_index_html_is_served_verbatim() {
    let zip = make_zip(&[deflated("root/about.html", b"<p>about</p>")]);
    let handler = Handler::builder()
        .with_zip_prefix("root/".to_string())
        .with_zip(zip)
        .try_build()
        .unwrap();
    assert!(handler.entry("/about.html").is_some());
    assert!(handler.entry("/about/").is_none());
    assert!(handler.entry("/about").is_none());
}

#[test]
fn entries_outside_the_zip_prefix_are_skipped() {
    let zip = make_zip(&[stored("other/a.txt", b"x"), stored("root/b.txt", b"y")]);
    let handler = Handler::builder()
        .with_zip_prefix("root/".to_string())
        .with_zip(zip)
        .try_build()
        .unwrap();
    assert!(handler.entry("/a.txt").is_none());
    assert!(handler.entry("/b.txt").is_some());
}
