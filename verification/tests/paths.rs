use zipserve::digits::decimal_usize;
use zipserve::digits::hex_u32;
use zipserve::github::zip_download_branch_url;
use zipserve::github::zip_download_commit_url;
use zipserve::github::zip_download_tag_url;
use zipserve::http::StatusCode;
use zipserve::path::extension;
use zipserve::path::filename;
use zipserve::path::path;
use zipserve::path::sanitize_prefix;

#[test]
fn path_with_prefix() {
    let prefix = "/prefix";
    assert_eq!(path(prefix, "/prefix/index.html"), "/");
    assert_eq!(path(prefix, "/prefix/a/b"), "/a/b");
    assert_eq!(path(prefix, "/prefix/a/b.html"), "/a/b.html");
    assert_eq!(path(prefix, "/prefix/a/b/"), "/a/b/");
    assert_eq!(path(prefix, "/prefix/a/b/c.jpg"), "/a/b/c.jpg");
    let prefix = "/prefix/";
    assert_eq!(path(prefix, "/prefix/index.html"), "/");
    assert_eq!(path(prefix, "/prefix/a/b"), "/a/b");
    assert_eq!(path(prefix, "/prefix/a/b.html"), "/a/b.html");
    assert_eq!(path(prefix, "/prefix/a/b/"), "/a/b/");
    assert_eq!(path(prefix, "/prefix/a/b/c.jpg"), "/a/b/c.jpg");
}

#[test]
fn path_no_prefix() {
    assert_eq!(path("", "/index.html"), "/");
    assert_eq!(path("", "/a/b"), "/a/b");
    assert_eq!(path("", "/a/b.html"), "/a/b.html");
    assert_eq!(path("", "/a/b/"), "/a/b/");
    assert_eq!(path("", "/a/b/c.jpg"), "/a/b/c.jpg");
    assert_eq!(path("", "index.html"), "/");
    assert_eq!(path("", "a/b"), "/a/b");
    assert_eq!(path("", "a/b.html"), "/a/b.html");
    assert_eq!(path("", "a/b/"), "/a/b/");
    assert_eq!(path("", "a/b/c.jpg"), "/a/b/c.jpg");
}

#[test]
fn nested_index_maps_to_parent_directory() {
    assert_eq!(path("", "docs/index.html"), "/docs/");
    assert_eq!(path("root/", "root/a/b/index.html"), "/a/b/");
    assert_eq!(path("", "index.html"), "/");
}

#[test]
fn marker_names_map_to_directory_form() {
    assert_eq!(path("", "go.307"), "/go/");
    assert_eq!(path("", "a/b.308"), "/a/b/");
}

#[test]
fn leading_dots_and_slashes_are_stripped() {
    assert_eq!(path("", "./a.txt"), "/a.txt");
    assert_eq!(path("", "//a/b.png"), "/a/b.png");
    assert_eq!(path("", "/"), "/");
    assert_eq!(path("", ".//."), "/");
}

#[test]
fn filename_and_extension() {
    assert_eq!(filename("a/b/c.txt"), "c.txt");
    assert_eq!(filename("abc"), "abc");
    assert_eq!(filename("a/b/"), "");
    assert_eq!(extension("c.txt"), "txt");
    assert_eq!(extension("c"), "c");
    assert_eq!(extension("archive.tar.gz"), "gz");
}

#[test]
fn sanitize_prefix_canonical_forms() {
    assert_eq!(sanitize_prefix("test/".to_string()), "/test");
    assert_eq!(sanitize_prefix("/test".to_string()), "/test");
    assert_eq!(sanitize_prefix("/test/".to_string()), "/test");
    assert_eq!(sanitize_prefix("".to_string()), "");
    assert_eq!(sanitize_prefix("/".to_string()), "");
}

#[test]
fn hex_rendering() {
    assert_eq!(hex_u32(0), "0");
    assert_eq!(hex_u32(0xdeadbeef), "deadbeef");
    assert_eq!(hex_u32(26), "1a");
    assert_eq!(hex_u32(u32::MAX), "ffffffff");
}

#[test]
fn decimal_rendering() {
    assert_eq!(decimal_usize(0), "0");
    assert_eq!(decimal_usize(7), "7");
    assert_eq!(decimal_usize(10245), "10245");
}

#[test]
fn github_urls() {
    assert_eq!(
        zip_download_branch_url("user", "repo", "main"),
        "https://codeload.github.com/user/repo/zip/refs/heads/main"
    );
    assert_eq!(
        zip_download_tag_url("user", "repo", "v1.0"),
        "https://codeload.github.com/user/repo/zip/refs/tags/v1.0"
    );
    assert_eq!(
        zip_download_commit_url("user", "repo", "abc123"),
        "https://codeload.github.com/user/repo/zip/abc123"
    );
}

#[test]
fn status_code_values() {
    assert_eq!(StatusCode::OK.code(), 200);
    assert_eq!(StatusCode::NoContent.code(), 204);
    assert_eq!(StatusCode::NotModified.code(), 304);
    assert_eq!(StatusCode::TemporaryRedirect.code(), 307);
    assert_eq!(StatusCode::PermanentRedirect.code(), 308);
    assert_eq!(StatusCode::BadRequest.code(), 400);
    assert_eq!(StatusCode::NotFound.code(), 404);
    assert_eq!(StatusCode::MethodNotAllowed.code(), 405);
    assert_eq!(StatusCode::PreconditionFailed.code(), 412);
}
