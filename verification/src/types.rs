//! The default type policy: which entries are served, with which headers,
//! which are re-encoded for transfer, and which are redirect markers.

use vstd::prelude::*;
use vstd::string::StringSliceAdditionalSpecFns;
use crate::handler::HeaderSelector;
use crate::handler::HeadersAndCompression;
use crate::handler::HeadersAndCompressionModel;
use crate::handler::hac_view;
use crate::http::HeaderName;
use crate::http::Line;
use crate::http::LineModel;
use crate::http::lines_view;
use crate::text::chars_eq;
use crate::text::is_char_prefix;
use crate::text::str_starts_with;

verus! {

/// A header line holding a borrowed constant value, at the model level.
pub open spec fn static_line(k: HeaderName, v: &str) -> LineModel {
    LineModel { key: k, value: v.spec_bytes() }
}

/// The header lines that every served entry carries.
pub open spec fn spec_default_headers() -> Seq<LineModel> {
    seq![
        static_line(HeaderName::Allow, "GET, HEAD"),
        static_line(HeaderName::XContentTypeOptions, "nosniff"),
        static_line(HeaderName::XFrameOptions, "DENY"),
        static_line(HeaderName::XXssProtection, "1; mode=block"),
        static_line(HeaderName::CrossOriginResourcePolicy, "same-site"),
        static_line(HeaderName::CrossOriginEmbedderPolicy, "crendentialless"),
        static_line(HeaderName::CrossOriginOpenerPolicy, "same-origin"),
        static_line(
            HeaderName::ContentSecurityPolicy,
            "default-src 'self';script-src 'wasm-unsafe-eval';script-src-elem 'self' 'unsafe-inline';script-src-attr 'none';worker-src 'self' blob:;style-src 'self' 'unsafe-inline';img-src 'self' data: blob:;font-src 'self' data:;frame-src 'none';object-src 'none';base-uri 'none';frame-ancestors 'none';form-action 'none'",
        ),
        static_line(HeaderName::StrictTransportSecurity, "max-age=63072000; includeSubDomains; preload"),
    ]
}

/// The header lines of error responses.
pub open spec fn spec_default_error_headers() -> Seq<LineModel> {
    seq![static_line(HeaderName::Allow, "GET, HEAD"), static_line(HeaderName::ContentLength, "0")]
}

/// The header lines that every served entry carries.
pub fn default_headers() -> (r: Vec<Line>)
    ensures
        lines_view(r@) == spec_default_headers(),
{
    let mut v: Vec<Line> = Vec::new();
    v.push(Line::with_slice_value(HeaderName::Allow, "GET, HEAD"));
    v.push(Line::with_slice_value(HeaderName::XContentTypeOptions, "nosniff"));
    v.push(Line::with_slice_value(HeaderName::XFrameOptions, "DENY"));
    v.push(Line::with_slice_value(HeaderName::XXssProtection, "1; mode=block"));
    v.push(Line::with_slice_value(HeaderName::CrossOriginResourcePolicy, "same-site"));
    v.push(Line::with_slice_value(HeaderName::CrossOriginEmbedderPolicy, "crendentialless"));
    v.push(Line::with_slice_value(HeaderName::CrossOriginOpenerPolicy, "same-origin"));
    v.push(
        Line::with_slice_value(
            HeaderName::ContentSecurityPolicy,
            "default-src 'self';script-src 'wasm-unsafe-eval';script-src-elem 'self' 'unsafe-inline';script-src-attr 'none';worker-src 'self' blob:;style-src 'self' 'unsafe-inline';img-src 'self' data: blob:;font-src 'self' data:;frame-src 'none';object-src 'none';base-uri 'none';frame-ancestors 'none';form-action 'none'",
        ),
    );
    v.push(
        Line::with_slice_value(
            HeaderName::StrictTransportSecurity,
            "max-age=63072000; includeSubDomains; preload",
        ),
    );
    proof {
        assert(lines_view(v@) =~= spec_default_headers());
    }
    v
}

/// The header lines of error responses.
pub fn default_error_headers() -> (r: Vec<Line>)
    ensures
        lines_view(r@) == spec_default_error_headers(),
{
    let mut v: Vec<Line> = Vec::new();
    v.push(Line::with_slice_value(HeaderName::Allow, "GET, HEAD"));
    v.push(Line::with_slice_value(HeaderName::ContentLength, "0"));
    proof {
        assert(lines_view(v@) =~= spec_default_error_headers());
    }
    v
}

/// The header lines of error responses.
pub fn error_headers() -> (r: Vec<Line>)
    ensures
        lines_view(r@) == spec_default_error_headers(),
{
    default_error_headers()
}

/// The headers of a served file type: the defaults, its content type, and
/// its cache policy.
pub open spec fn spec_typed_headers(content_type: &str, cache_control: &str) -> Seq<LineModel> {
    spec_default_headers() + seq![
        static_line(HeaderName::ContentType, content_type),
        static_line(HeaderName::CacheControl, cache_control),
    ]
}

/// A policy decision for an ordinary file type.
pub fn headers_and_compression(
    content_type: &'static str,
    cache_control: &'static str,
    compressible: bool,
) -> (r: HeadersAndCompression)
    ensures
        r@ == (HeadersAndCompressionModel {
            headers: spec_typed_headers(content_type, cache_control),
            compressible,
            redirection: false,
        }),
{
    let mut headers = default_headers();
    headers.push(Line::with_slice_value(HeaderName::ContentType, content_type));
    headers.push(Line::with_slice_value(HeaderName::CacheControl, cache_control));
    proof {
        assert(lines_view(headers@) =~= spec_typed_headers(content_type, cache_control));
    }
    HeadersAndCompression { headers, compressible, redirection: false }
}

/// The decision table of the default policy. Compressible text-like types
/// revalidate; immutable image types cache long; `.307` and `.308` names are
/// redirect markers; anything else is not served.
pub open spec fn spec_headers_for_type(filename: Seq<char>, extension: Seq<char>) -> Option<
    HeadersAndCompressionModel,
> {
    if extension == "html"@ || extension == "htm"@ {
        Some(plain_type("text/html", "public,max-age=3600,must-revalidate,stale-if-error=3600", true))
    } else if extension == "css"@ {
        Some(plain_type("text/css", "public,max-age=3600,must-revalidate,stale-if-error=3600", true))
    } else if extension == "js"@ || extension == "mjs"@ || extension == "map"@ {
        if is_char_prefix(filename, "service-worker."@) || is_char_prefix(filename, "sw."@) {
            Some(
                HeadersAndCompressionModel {
                    headers: spec_typed_headers(
                        "application/javascript",
                        "public,no-cache,max-age=0,must-revalidate;stale-if-error=3600",
                    ) + seq![static_line(HeaderName::ServiceWorkerAllowed, "/")],
                    compressible: true,
                    redirection: false,
                },
            )
        } else {
            Some(
                plain_type(
                    "application/javascript",
                    "public,max-age=3600,must-revalidate,stale-if-error=3600",
                    true,
                ),
            )
        }
    } else if extension == "json"@ {
        Some(plain_type("application/json", "public,max-age=3600,must-revalidate,stale-if-error=3600", true))
    } else if extension == "txt"@ {
        Some(plain_type("text/plain", "public,max-age=3600,must-revalidate,stale-if-error=3600", true))
    } else if extension == "csv"@ {
        Some(plain_type("text/csv", "public,max-age=3600,must-revalidate,stale-if-error=3600", true))
    } else if extension == "md"@ {
        Some(plain_type("text/markdown", "public,max-age=3600,must-revalidate,stale-if-error=3600", true))
    } else if extension == "wasm"@ {
        Some(plain_type("application/wasm", "public,max-age=3600,must-revalidate,stale-if-error=3600", true))
    } else if extension == "woff2"@ {
        Some(plain_type("font/woff2", "public,max-age=3600,must-revalidate,stale-if-error=3600", false))
    } else if extension == "ico"@ {
        Some(
            plain_type(
                "image/x-icon",
                "public,max-age=86400,immutable,stale-while-revalidate=864000,stale-if-error=3600",
                true,
            ),
        )
    } else if extension == "webp"@ {
        Some(
            plain_type(
                "image/webp",
                "public,max-age=86400,immutable,stale-while-revalidate=864000,stale-if-error=3600",
                false,
            ),
        )
    } else if extension == "avif"@ {
        Some(
            plain_type(
                "image/avif",
                "public,max-age=86400,immutable,stale-while-revalidate=864000,stale-if-error=3600",
                false,
            ),
        )
    } else if extension == "gif"@ {
        Some(
            plain_type(
                "image/gif",
                "public,max-age=86400,immutable,stale-while-revalidate=864000,stale-if-error=3600",
                false,
            ),
        )
    } else if extension == "heif"@ {
        Some(
            plain_type(
                "image/heif",
                "public,max-age=86400,immutable,stale-while-revalidate=864000,stale-if-error=3600",
                false,
            ),
        )
    } else if extension == "heic"@ {
        Some(
            plain_type(
                "image/heic",
                "public,max-age=86400,immutable,stale-while-revalidate=864000,stale-if-error=3600",
                false,
            ),
        )
    } else if extension == "png"@ {
        Some(
            plain_type(
                "image/png",
                "public,max-age=86400,immutable,stale-while-revalidate=864000,stale-if-error=3600",
                false,
            ),
        )
    } else if extension == "jpg"@ {
        Some(
            plain_type(
                "image/jpeg",
                "public,max-age=86400,immutable,stale-while-revalidate=864000,stale-if-error=3600",
                false,
            ),
        )
    } else if extension == "mp3"@ {
        Some(plain_type("audio/mp3", "public,max-age=3600,must-revalidate,stale-if-error=3600", false))
    } else if extension == "mp4"@ {
        Some(plain_type("video/mp4", "public,max-age=3600,must-revalidate,stale-if-error=3600", false))
    } else if extension == "svg"@ {
        Some(
            plain_type(
                "image/svg+xml",
                "public,max-age=86400,immutable,stale-while-revalidate=864000,stale-if-error=3600",
                true,
            ),
        )
    } else if extension == "pdf"@ {
        Some(plain_type("application/pdf", "public,max-age=3600,must-revalidate,stale-if-error=3600", true))
    } else if extension == "zip"@ {
        Some(plain_type("application/zip", "public,max-age=3600,must-revalidate,stale-if-error=3600", false))
    } else if extension == "307"@ {
        Some(
            HeadersAndCompressionModel {
                headers: spec_default_headers() + seq![
                    static_line(
                        HeaderName::CacheControl,
                        "public,max-age=3600,must-revalidate,stale-if-error=3600",
                    ),
                ],
                compressible: false,
                redirection: true,
            },
        )
    } else if extension == "308"@ {
        Some(
            HeadersAndCompressionModel {
                headers: spec_default_headers(),
                compressible: false,
                redirection: true,
            },
        )
    } else {
        None
    }
}

/// An ordinary file type's decision, at the model level.
pub open spec fn plain_type(content_type: &str, cache_control: &str, compressible: bool) -> HeadersAndCompressionModel {
    HeadersAndCompressionModel {
        headers: spec_typed_headers(content_type, cache_control),
        compressible,
        redirection: false,
    }
}

/// The decision of the default policy for one (file name, extension) pair.
pub fn headers_for_type(filename: &str, extension: &str) -> (r: Option<HeadersAndCompression>)
    ensures
        hac_view(r) == spec_headers_for_type(filename@, extension@),
{
    if chars_eq(extension, "html") || chars_eq(extension, "htm") {
        Some(headers_and_compression("text/html", "public,max-age=3600,must-revalidate,stale-if-error=3600", true))
    } else if chars_eq(extension, "css") {
        Some(headers_and_compression("text/css", "public,max-age=3600,must-revalidate,stale-if-error=3600", true))
    } else if chars_eq(extension, "js") || chars_eq(extension, "mjs") || chars_eq(extension, "map") {
        if str_starts_with(filename, "service-worker.") || str_starts_with(filename, "sw.") {
            let mut r = headers_and_compression(
                "application/javascript",
                "public,no-cache,max-age=0,must-revalidate;stale-if-error=3600",
                true,
            );
            r.headers.push(Line::with_slice_value(HeaderName::ServiceWorkerAllowed, "/"));
            proof {
                assert(lines_view(r.headers@) =~= spec_typed_headers(
                    "application/javascript",
                    "public,no-cache,max-age=0,must-revalidate;stale-if-error=3600",
                ) + seq![static_line(HeaderName::ServiceWorkerAllowed, "/")]);
            }
            Some(r)
        } else {
            Some(
                headers_and_compression(
                    "application/javascript",
                    "public,max-age=3600,must-revalidate,stale-if-error=3600",
                    true,
                ),
            )
        }
    } else if chars_eq(extension, "json") {
        Some(headers_and_compression("application/json", "public,max-age=3600,must-revalidate,stale-if-error=3600", true))
    } else if chars_eq(extension, "txt") {
        Some(headers_and_compression("text/plain", "public,max-age=3600,must-revalidate,stale-if-error=3600", true))
    } else if chars_eq(extension, "csv") {
        Some(headers_and_compression("text/csv", "public,max-age=3600,must-revalidate,stale-if-error=3600", true))
    } else if chars_eq(extension, "md") {
        Some(headers_and_compression("text/markdown", "public,max-age=3600,must-revalidate,stale-if-error=3600", true))
    } else if chars_eq(extension, "wasm") {
        Some(headers_and_compression("application/wasm", "public,max-age=3600,must-revalidate,stale-if-error=3600", true))
    } else if chars_eq(extension, "woff2") {
        Some(headers_and_compression("font/woff2", "public,max-age=3600,must-revalidate,stale-if-error=3600", false))
    } else if chars_eq(extension, "ico") {
        Some(
            headers_and_compression(
                "image/x-icon",
                "public,max-age=86400,immutable,stale-while-revalidate=864000,stale-if-error=3600",
                true,
            ),
        )
    } else if chars_eq(extension, "webp") {
        Some(
            headers_and_compression(
                "image/webp",
                "public,max-age=86400,immutable,stale-while-revalidate=864000,stale-if-error=3600",
                false,
            ),
        )
    } else if chars_eq(extension, "avif") {
        Some(
            headers_and_compression(
                "image/avif",
                "public,max-age=86400,immutable,stale-while-revalidate=864000,stale-if-error=3600",
                false,
            ),
        )
    } else if chars_eq(extension, "gif") {
        Some(
            headers_and_compression(
                "image/gif",
                "public,max-age=86400,immutable,stale-while-revalidate=864000,stale-if-error=3600",
                false,
            ),
        )
    } else if chars_eq(extension, "heif") {
        Some(
            headers_and_compression(
                "image/heif",
                "public,max-age=86400,immutable,stale-while-revalidate=864000,stale-if-error=3600",
                false,
            ),
        )
    } else if chars_eq(extension, "heic") {
        Some(
            headers_and_compression(
                "image/heic",
                "public,max-age=86400,immutable,stale-while-revalidate=864000,stale-if-error=3600",
                false,
            ),
        )
    } else if chars_eq(extension, "png") {
        Some(
            headers_and_compression(
                "image/png",
                "public,max-age=86400,immutable,stale-while-revalidate=864000,stale-if-error=3600",
                false,
            ),
        )
    } else if chars_eq(extension, "jpg") {
        Some(
            headers_and_compression(
                "image/jpeg",
                "public,max-age=86400,immutable,stale-while-revalidate=864000,stale-if-error=3600",
                false,
            ),
        )
    } else if chars_eq(extension, "mp3") {
        Some(headers_and_compression("audio/mp3", "public,max-age=3600,must-revalidate,stale-if-error=3600", false))
    } else if chars_eq(extension, "mp4") {
        Some(headers_and_compression("video/mp4", "public,max-age=3600,must-revalidate,stale-if-error=3600", false))
    } else if chars_eq(extension, "svg") {
        Some(
            headers_and_compression(
                "image/svg+xml",
                "public,max-age=86400,immutable,stale-while-revalidate=864000,stale-if-error=3600",
                true,
            ),
        )
    } else if chars_eq(extension, "pdf") {
        Some(headers_and_compression("application/pdf", "public,max-age=3600,must-revalidate,stale-if-error=3600", true))
    } else if chars_eq(extension, "zip") {
        Some(headers_and_compression("application/zip", "public,max-age=3600,must-revalidate,stale-if-error=3600", false))
    } else if chars_eq(extension, "307") {
        let mut headers = default_headers();
        headers.push(
            Line::with_slice_value(
                HeaderName::CacheControl,
                "public,max-age=3600,must-revalidate,stale-if-error=3600",
            ),
        );
        proof {
            assert(lines_view(headers@) =~= spec_default_headers() + seq![
                static_line(
                    HeaderName::CacheControl,
                    "public,max-age=3600,must-revalidate,stale-if-error=3600",
                ),
            ]);
        }
        Some(HeadersAndCompression { headers, compressible: false, redirection: true })
    } else if chars_eq(extension, "308") {
        Some(
            HeadersAndCompression {
                headers: default_headers(),
                compressible: false,
                redirection: true,
            },
        )
    } else {
        None
    }
}

/// The policy used when no custom selector is configured.
pub struct DefaultHeaderSelector;

impl HeaderSelector for DefaultHeaderSelector {
    open spec fn spec_headers_for(&self, filename: Seq<char>, extension: Seq<char>) -> Option<
        HeadersAndCompressionModel,
    > {
        spec_headers_for_type(filename, extension)
    }

    open spec fn spec_error_headers(&self) -> Seq<LineModel> {
        spec_default_error_headers()
    }

    fn headers_for_extension(&self, filename: &str, extension: &str) -> (r: Option<
        HeadersAndCompression,
    >) {
        headers_for_type(filename, extension)
    }

    fn error_headers(&self) -> (r: Vec<Line>) {
        default_error_headers()
    }
}

} // verus!
