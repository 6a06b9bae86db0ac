//! Normalization of archive-internal entry names into served URL paths.
//!
//! An entry name is taken relative to the configured archive prefix; leading
//! `.` and `/` characters are dropped. A root `index.html` maps to `/`, a
//! nested `index.html` maps to its parent directory with a trailing slash,
//! the redirect-marker names (`.307`, `.308`) collapse to a directory-form
//! path, and every other name maps verbatim behind a leading slash.

use vstd::prelude::*;
use vstd::string::StrSliceExecFns;
use vstd::string::StringExecFns;
use crate::text::chars_eq;
use crate::text::is_char_prefix;
use crate::text::is_char_suffix;
use crate::text::str_ends_with;

verus! {

/// Index just past the last `/` in `name`, or 0 when there is none.
pub open spec fn after_last_slash(name: Seq<char>) -> int
    decreases name.len(),
{
    if name.len() == 0 {
        0
    } else if name[name.len() - 1] == '/' {
        name.len() as int
    } else {
        after_last_slash(name.drop_last())
    }
}

/// Index just past the last `.` in `name`, or 0 when there is none.
pub open spec fn after_last_dot(name: Seq<char>) -> int
    decreases name.len(),
{
    if name.len() == 0 {
        0
    } else if name[name.len() - 1] == '.' {
        name.len() as int
    } else {
        after_last_dot(name.drop_last())
    }
}

/// The part of an entry name after its last `/`: the whole name when there is
/// no `/`.
pub open spec fn spec_filename(name: Seq<char>) -> Seq<char> {
    name.subrange(after_last_slash(name), name.len() as int)
}

/// The part of a file name after its last `.`: the whole file name when there
/// is no `.`.
pub open spec fn spec_extension(filename: Seq<char>) -> Seq<char> {
    filename.subrange(after_last_dot(filename), filename.len() as int)
}

/// The file-name component of an entry name.
pub fn filename(name: &str) -> (r: &str)
    ensures
        r@ == spec_filename(name@),
{
    let n = name.unicode_len();
    proof {
        assert(name@.subrange(0, n as int) =~= name@);
    }
    let mut i: usize = n;
    while i > 0
        invariant
            i <= n,
            n == name@.len(),
            after_last_slash(name@) == after_last_slash(name@.subrange(0, i as int)),
        decreases i,
    {
        if name.get_char(i - 1) == '/' {
            proof {
                assert(after_last_slash(name@.subrange(0, i as int)) == i as int);
            }
            return name.substring_char(i, n);
        }
        proof {
            assert(name@.subrange(0, i as int).drop_last() =~= name@.subrange(0, i - 1 as int));
        }
        i = i - 1;
    }
    proof {
        assert(name@.subrange(0, 0) =~= Seq::<char>::empty());
        assert(after_last_slash(name@) == 0);
    }
    name.substring_char(0, n)
}

/// The extension of a file name.
pub fn extension(filename: &str) -> (r: &str)
    ensures
        r@ == spec_extension(filename@),
{
    let n = filename.unicode_len();
    proof {
        assert(filename@.subrange(0, n as int) =~= filename@);
    }
    let mut i: usize = n;
    while i > 0
        invariant
            i <= n,
            n == filename@.len(),
            after_last_dot(filename@) == after_last_dot(filename@.subrange(0, i as int)),
        decreases i,
    {
        if filename.get_char(i - 1) == '.' {
            proof {
                assert(after_last_dot(filename@.subrange(0, i as int)) == i as int);
            }
            return filename.substring_char(i, n);
        }
        proof {
            assert(filename@.subrange(0, i as int).drop_last() =~= filename@.subrange(
                0,
                i - 1 as int,
            ));
        }
        i = i - 1;
    }
    proof {
        assert(filename@.subrange(0, 0) =~= Seq::<char>::empty());
        assert(after_last_dot(filename@) == 0);
    }
    filename.substring_char(0, n)
}

/// The first index at or after `i` whose character is neither `.` nor `/`,
/// or the length when every remaining character is one of the two: dropping
/// the characters before it strips the whole leading `.` / `/` run.
pub open spec fn first_plain(s: Seq<char>, i: int) -> int
    decreases s.len() - i,
    when 0 <= i <= s.len()
{
    if i >= s.len() {
        i
    } else if s[i] != '.' && s[i] != '/' {
        i
    } else {
        first_plain(s, i + 1)
    }
}

proof fn lemma_first_plain_props(s: Seq<char>, i: int)
    requires
        0 <= i <= s.len(),
    ensures
        i <= first_plain(s, i) <= s.len(),
        first_plain(s, i) < s.len() ==> (s[first_plain(s, i)] != '.' && s[first_plain(s, i)]
            != '/'),
    decreases s.len() - i,
{
    if i < s.len() && !(s[i] != '.' && s[i] != '/') {
        lemma_first_plain_props(s, i + 1);
    }
}

fn find_core_start(rest: &str) -> (r: usize)
    ensures
        r == first_plain(rest@, 0),
        r <= rest@.len(),
{
    let rn = rest.unicode_len();
    let mut i: usize = 0;
    while i < rn
        invariant
            i <= rn,
            rn == rest@.len(),
            first_plain(rest@, 0) == first_plain(rest@, i as int),
        decreases rn - i,
    {
        let c = rest.get_char(i);
        if c != '.' && c != '/' {
            return i;
        }
        i = i + 1;
    }
    i
}

/// The route path for entry `name`, relative to `zip_prefix`.
pub open spec fn spec_route_path(zip_prefix: Seq<char>, name: Seq<char>) -> Seq<char> {
    let rest = name.subrange(zip_prefix.len() as int, name.len() as int);
    let core = rest.subrange(first_plain(rest, 0), rest.len() as int);
    if core == "index.html"@ {
        "/"@
    } else if is_char_suffix(core, "/index.html"@) {
        "/"@ + core.subrange(0, core.len() - "index.html"@.len())
    } else if is_char_suffix(core, ".307"@) {
        "/"@ + core.subrange(0, core.len() - ".307"@.len()) + "/"@
    } else if is_char_suffix(core, ".308"@) {
        "/"@ + core.subrange(0, core.len() - ".308"@.len()) + "/"@
    } else {
        "/"@ + core
    }
}

/// The route path for entry `name`, relative to `zip_prefix`.
pub fn path(zip_prefix: &str, name: &str) -> (r: String)
    requires
        is_char_prefix(name@, zip_prefix@),
    ensures
        r@ == spec_route_path(zip_prefix@, name@),
{
    let np = zip_prefix.unicode_len();
    let nn = name.unicode_len();
    let rest = name.substring_char(np, nn);
    let start = find_core_start(rest);
    let rn = rest.unicode_len();
    let core = rest.substring_char(start, rn);
    let cn = core.unicode_len();
    if chars_eq(core, "index.html") {
        let r = String::from_str("/");
        return r;
    }
    if str_ends_with(core, "/index.html") {
        proof {
            reveal_strlit("/index.html");
            reveal_strlit("index.html");
        }
        let mut r = String::from_str("/");
        r.append(core.substring_char(0, cn - 10));
        return r;
    }
    if str_ends_with(core, ".307") {
        proof {
            reveal_strlit(".307");
        }
        let mut r = String::from_str("/");
        r.append(core.substring_char(0, cn - 4));
        r.append("/");
        return r;
    }
    if str_ends_with(core, ".308") {
        proof {
            reveal_strlit(".308");
        }
        let mut r = String::from_str("/");
        r.append(core.substring_char(0, cn - 4));
        r.append("/");
        return r;
    }
    let mut r = String::from_str("/");
    r.append(core);
    r
}

/// Whether a URL path or entry name holds a hidden segment: a `.` right
/// after a `/`.
pub open spec fn has_hidden_segment(p: Seq<char>) -> bool {
    exists|i: int| 0 <= i && i + 1 < p.len() && #[trigger] p[i] == '/' && p[i + 1] == '.'
}

/// Whether the build skips an entry name as hidden: its file name starts with
/// `.`, the whole name starts with `.`, or some path segment starts with `.`.
pub open spec fn spec_hidden_name(name: Seq<char>) -> bool {
    ||| (spec_filename(name).len() > 0 && spec_filename(name)[0] == '.')
    ||| (name.len() > 0 && name[0] == '.')
    ||| has_hidden_segment(name)
}

/// A route path built from a non-hidden entry name starts with `/` and never
/// holds a hidden segment.
pub proof fn lemma_route_path_not_hidden(zip_prefix: Seq<char>, name: Seq<char>)
    requires
        is_char_prefix(name, zip_prefix),
        !spec_hidden_name(name),
    ensures
        spec_route_path(zip_prefix, name).len() > 0,
        spec_route_path(zip_prefix, name)[0] == '/',
        !has_hidden_segment(spec_route_path(zip_prefix, name)),
{
    let rest = name.subrange(zip_prefix.len() as int, name.len() as int);
    lemma_first_plain_props(rest, 0);
    let start = first_plain(rest, 0);
    let core = rest.subrange(start, rest.len() as int);
    let route = spec_route_path(zip_prefix, name);
    reveal_strlit("/");
    reveal_strlit("index.html");
    reveal_strlit("/index.html");
    reveal_strlit(".307");
    reveal_strlit(".308");
    assert(core.len() > 0 ==> core[0] != '.' && core[0] != '/');
    assert(forall|i: int| 0 <= i < core.len() ==> core[i] == name[zip_prefix.len() + start + i]);
    assert(!has_hidden_segment(core)) by {
        if has_hidden_segment(core) {
            let i = choose|i: int|
                0 <= i && i + 1 < core.len() && #[trigger] core[i] == '/' && core[i + 1] == '.';
            assert(name[zip_prefix.len() + start + i] == '/');
            assert(name[zip_prefix.len() + start + i + 1] == '.');
            assert(has_hidden_segment(name));
        }
    }
    assert forall|k: int| 0 <= k <= core.len() implies !has_hidden_segment(
        "/"@ + core.subrange(0, k),
    ) by {
        let p = "/"@ + core.subrange(0, k);
        if has_hidden_segment(p) {
            let i = choose|i: int|
                0 <= i && i + 1 < p.len() && #[trigger] p[i] == '/' && p[i + 1] == '.';
            if i == 0 {
                assert(core[0] == '.');
            } else {
                assert(core[i - 1] == '/' && core[i] == '.');
                assert(has_hidden_segment(core));
            }
        }
    }
    assert forall|k: int| 0 <= k <= core.len() implies !has_hidden_segment(
        "/"@ + core.subrange(0, k) + "/"@,
    ) by {
        let p = "/"@ + core.subrange(0, k) + "/"@;
        if has_hidden_segment(p) {
            let i = choose|i: int|
                0 <= i && i + 1 < p.len() && #[trigger] p[i] == '/' && p[i + 1] == '.';
            if i == 0 {
                assert(core[0] == '.');
            } else {
                assert(core[i - 1] == '/' && core[i] == '.');
                assert(has_hidden_segment(core));
            }
        }
    }
    if core == "index.html"@ {
        assert(!has_hidden_segment(route));
    } else {
        assert(route.len() > 0 && route[0] == '/');
    }
}

/// A directory-index name maps to its parent directory with a trailing
/// slash, and the root index maps to the bare root.
pub proof fn lemma_index_html_route(zip_prefix: Seq<char>, dir: Seq<char>)
    requires
        dir.len() > 0 ==> (dir[0] != '.' && dir[0] != '/'),
    ensures
        spec_route_path(zip_prefix, zip_prefix + "index.html"@) == "/"@,
        dir.len() > 0 ==> spec_route_path(zip_prefix, zip_prefix + dir + "/index.html"@) == "/"@
            + dir + "/"@,
{
    reveal_strlit("/");
    reveal_strlit("index.html");
    reveal_strlit("/index.html");
    let root_name = zip_prefix + "index.html"@;
    let rest0 = root_name.subrange(zip_prefix.len() as int, root_name.len() as int);
    assert(rest0 =~= "index.html"@);
    assert(first_plain(rest0, 0) == 0);
    assert(rest0.subrange(0, rest0.len() as int) =~= rest0);
    assert(spec_route_path(zip_prefix, root_name) == "/"@);
    if dir.len() > 0 {
        let name = zip_prefix + dir + "/index.html"@;
        let rest = name.subrange(zip_prefix.len() as int, name.len() as int);
        assert(rest =~= dir + "/index.html"@);
        assert(rest[0] == dir[0]);
        assert(first_plain(rest, 0) == 0);
        let core = rest.subrange(0, rest.len() as int);
        assert(core =~= rest);
        assert(core != "index.html"@) by {
            assert(core.len() == dir.len() + 11);
        }
        assert(is_char_suffix(core, "/index.html"@)) by {
            assert(core.subrange(core.len() - 11, core.len() as int) =~= "/index.html"@);
        }
        assert(core.subrange(0, core.len() - 10) =~= dir + "/"@);
        assert(spec_route_path(zip_prefix, name) == "/"@ + (dir + "/"@));
        assert("/"@ + (dir + "/"@) =~= "/"@ + dir + "/"@);
    }
}

/// A root prefix in canonical form: a leading slash added when missing, one
/// trailing slash removed when present.
pub open spec fn spec_sanitize_prefix(p: Seq<char>) -> Seq<char> {
    let q = if p.len() > 0 && p[0] == '/' {
        p
    } else {
        "/"@ + p
    };
    if q.len() > 0 && q[q.len() - 1] == '/' {
        q.subrange(0, q.len() - 1)
    } else {
        q
    }
}

/// Brings a root prefix into canonical form.
pub fn sanitize_prefix(prefix: String) -> (r: String)
    ensures
        r@ == spec_sanitize_prefix(prefix@),
{
    let n = prefix.as_str().unicode_len();
    let with_slash = if n > 0 && prefix.as_str().get_char(0) == '/' {
        prefix
    } else {
        let mut s = String::from_str("/");
        s.append(prefix.as_str());
        s
    };
    let m = with_slash.as_str().unicode_len();
    if m > 0 && with_slash.as_str().get_char(m - 1) == '/' {
        let r = with_slash.as_str().substring_char(0, m - 1).to_owned();
        r
    } else {
        with_slash
    }
}

} // verus!
