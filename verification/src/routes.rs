//! Path handling: the application routes and the static-asset decisions.
//!
//! A request path is trimmed of surrounding slashes. A numeric path names
//! a shared object and is answered with the application shell; an empty
//! path likewise; anything else is looked up as a bundled asset by its
//! extension, case-insensitively, and only a handful of extensions are
//! served.

use vstd::prelude::*;

use crate::bytes::dec_i64_val;
use crate::bytes::parse_i64;
use crate::bytes::parses_as_i64;

verus! {

/// The two views of the application: upload at the root, download under a
/// numeric object id.
#[derive(PartialEq, Eq, Structural, Debug, Clone, Copy)]
pub enum AppRoute {
    Download(i64),
    Upload,
}

/// A served content type.
#[derive(PartialEq, Eq, Structural, Debug, Clone, Copy)]
pub enum ContentType {
    Html,
    Js,
    Css,
    Png,
    Jpeg,
    Wasm,
}

/// What to do with a request path.
pub enum ServeDecision {
    /// Serve the application shell.
    Index,
    /// Serve the named asset with the given content type.
    Asset(Vec<u8>, ContentType),
    /// Nothing to serve.
    Missing,
    /// A numeric path that is not a positive id.
    Rejected,
}

/// `s` without its leading slashes.
pub open spec fn trim_leading(s: Seq<u8>) -> Seq<u8>
    decreases s.len(),
{
    if s.len() > 0 && s[0] == 0x2f {
        trim_leading(s.skip(1))
    } else {
        s
    }
}

/// `s` without its trailing slashes.
pub open spec fn trim_trailing(s: Seq<u8>) -> Seq<u8>
    decreases s.len(),
{
    if s.len() > 0 && s.last() == 0x2f {
        trim_trailing(s.drop_last())
    } else {
        s
    }
}

/// `s` without surrounding slashes.
pub open spec fn trim_slashes(s: Seq<u8>) -> Seq<u8> {
    trim_trailing(trim_leading(s))
}

/// The extension: what follows the last `'.'`, if any.
pub open spec fn ext_of(s: Seq<u8>) -> Option<Seq<u8>>
    decreases s.len(),
{
    if s.len() == 0 {
        None
    } else if s.last() == 0x2e {
        Some(Seq::empty())
    } else {
        match ext_of(s.drop_last()) {
            Some(e) => Some(e.push(s.last())),
            None => None,
        }
    }
}

/// ASCII lowercasing of one byte.
pub open spec fn lower_byte(b: u8) -> u8 {
    if 0x41 <= b <= 0x5a {
        (b + 0x20) as u8
    } else {
        b
    }
}

/// ASCII lowercasing of a byte string.
pub open spec fn lower_bytes(s: Seq<u8>) -> Seq<u8> {
    s.map_values(|b: u8| lower_byte(b))
}

/// The bytes of `html`.
pub open spec fn ext_html() -> Seq<u8> {
    seq![104u8, 116, 109, 108]
}

/// The bytes of `js`.
pub open spec fn ext_js() -> Seq<u8> {
    seq![106u8, 115]
}

/// The bytes of `css`.
pub open spec fn ext_css() -> Seq<u8> {
    seq![99u8, 115, 115]
}

/// The bytes of `png`.
pub open spec fn ext_png() -> Seq<u8> {
    seq![112u8, 110, 103]
}

/// The bytes of `jpg`.
pub open spec fn ext_jpg() -> Seq<u8> {
    seq![106u8, 112, 103]
}

/// The bytes of `wasm`.
pub open spec fn ext_wasm() -> Seq<u8> {
    seq![119u8, 97, 115, 109]
}

/// The content type an extension is served with, if it is served at all.
pub open spec fn content_type_for(ext_lower: Seq<u8>) -> Option<ContentType> {
    if ext_lower == ext_html() {
        Some(ContentType::Html)
    } else if ext_lower == ext_js() {
        Some(ContentType::Js)
    } else if ext_lower == ext_css() {
        Some(ContentType::Css)
    } else if ext_lower == ext_png() {
        Some(ContentType::Png)
    } else if ext_lower == ext_jpg() {
        Some(ContentType::Jpeg)
    } else if ext_lower == ext_wasm() {
        Some(ContentType::Wasm)
    } else {
        None
    }
}

/// Which view a path routes to: a path whose remainder after the leading
/// slash is a 64-bit decimal integer opens the download view for that id,
/// anything else the upload view.
pub fn route_for_path(path: &[u8]) -> (r: AppRoute)
    ensures
        ({
            let rest = path@.skip(1);
            if path@.len() >= 1 && path@[0] == 0x2f && parses_as_i64(rest) {
                r == AppRoute::Download(dec_i64_val(rest) as i64)
            } else {
                r == AppRoute::Upload
            }
        }),
{
    if path.len() < 1 || path[0] != 0x2f {
        return AppRoute::Upload;
    }
    let rest = vstd::slice::slice_subrange(path, 1, path.len());
    proof {
        assert(rest@ =~= path@.skip(1));
    }
    match parse_i64(rest) {
        Some(v) => AppRoute::Download(v),
        None => AppRoute::Upload,
    }
}

/// Strips surrounding slashes from a path.
fn trim_slashes_exec(path: &[u8]) -> (r: Vec<u8>)
    ensures
        r@ == trim_slashes(path@),
{
    let mut a: usize = 0;
    proof {
        assert(path@.skip(0) =~= path@);
    }
    while a < path.len() && path[a] == 0x2f
        invariant
            a <= path@.len(),
            trim_leading(path@) == trim_leading(path@.skip(a as int)),
        decreases path@.len() - a,
    {
        proof {
            assert(path@.skip(a as int).skip(1) =~= path@.skip(a as int + 1));
        }
        a = a + 1;
    }
    proof {
        assert(trim_leading(path@.skip(a as int)) == path@.skip(a as int));
    }
    let mut b: usize = path.len();
    while b > a && path[b - 1] == 0x2f
        invariant
            a <= b <= path@.len(),
            trim_leading(path@) == path@.skip(a as int),
            trim_trailing(path@.skip(a as int)) == trim_trailing(
                path@.subrange(a as int, b as int),
            ),
        decreases b,
    {
        proof {
            assert(path@.subrange(a as int, b as int).drop_last() =~= path@.subrange(
                a as int,
                b as int - 1,
            ));
            assert(path@.subrange(a as int, b as int).last() == path@[b - 1]);
        }
        b = b - 1;
    }
    proof {
        let t = path@.subrange(a as int, b as int);
        assert(b > a ==> t.last() == path@[b - 1]);
        assert(trim_trailing(t) == t);
    }
    let out = vstd::slice::slice_subrange(path, a, b);
    proof {
        assert(out@ =~= path@.subrange(a as int, b as int));
    }
    vstd::slice::slice_to_vec(out)
}

/// The extension starts right after the last dot; before it, no dot
/// follows position `k`.
proof fn lemma_ext_at(s: Seq<u8>, k: int)
    requires
        0 <= k < s.len(),
        s[k] == 0x2e,
        forall|j: int| k < j < s.len() ==> s[j] != 0x2e,
    ensures
        ext_of(s) == Some(s.skip(k + 1)),
    decreases s.len(),
{
    if k == s.len() - 1 {
        assert(s.skip(k + 1) =~= Seq::<u8>::empty());
    } else {
        assert(s.last() != 0x2e);
        assert(forall|j: int| k < j < s.drop_last().len() ==> s.drop_last()[j] != 0x2e);
        lemma_ext_at(s.drop_last(), k);
        assert(s.drop_last().skip(k + 1).push(s.last()) =~= s.skip(k + 1));
    }
}

/// A name with no dot has no extension.
proof fn lemma_no_ext(s: Seq<u8>)
    requires
        forall|j: int| 0 <= j < s.len() ==> s[j] != 0x2e,
    ensures
        ext_of(s) is None,
    decreases s.len(),
{
    if s.len() > 0 {
        assert(forall|j: int| 0 <= j < s.drop_last().len() ==> s.drop_last()[j] != 0x2e);
        lemma_no_ext(s.drop_last());
    }
}

/// The extension of a name, lowercased, if the name has one.
fn lower_ext_of(name: &[u8]) -> (r: Option<Vec<u8>>)
    ensures
        r is Some <==> ext_of(name@) is Some,
        r matches Some(v) ==> v@ == lower_bytes(ext_of(name@)->0),
{
    let n = name.len();
    let mut k: usize = n;
    while k > 0
        invariant
            k <= n == name@.len(),
            forall|j: int| k <= j < n ==> name@[j] != 0x2e,
        decreases k,
    {
        if name[k - 1] == 0x2e {
            let mut out: Vec<u8> = Vec::new();
            let mut i: usize = k;
            while i < n
                invariant
                    k <= i <= n == name@.len(),
                    out@.len() == i - k,
                    forall|j: int| 0 <= j < i - k ==> out@[j] == lower_byte(name@[k + j]),
                decreases n - i,
            {
                let b = name[i];
                let lb: u8 = if b >= 0x41 && b <= 0x5a {
                    b + 0x20
                } else {
                    b
                };
                out.push(lb);
                i = i + 1;
            }
            proof {
                lemma_ext_at(name@, k - 1);
                assert(out@ =~= lower_bytes(name@.skip(k as int)));
            }
            return Some(out);
        }
        k = k - 1;
    }
    proof {
        lemma_no_ext(name@);
    }
    None
}

/// Tells an extension's content type, or that it is not served.
fn lookup_content_type(ext_lower: &[u8]) -> (r: Option<ContentType>)
    ensures
        r == content_type_for(ext_lower@),
{
    let mut html: Vec<u8> = Vec::new();
    html.push(104);
    html.push(116);
    html.push(109);
    html.push(108);
    let mut js: Vec<u8> = Vec::new();
    js.push(106);
    js.push(115);
    let mut css: Vec<u8> = Vec::new();
    css.push(99);
    css.push(115);
    css.push(115);
    let mut png: Vec<u8> = Vec::new();
    png.push(112);
    png.push(110);
    png.push(103);
    let mut jpg: Vec<u8> = Vec::new();
    jpg.push(106);
    jpg.push(112);
    jpg.push(103);
    let mut wasm: Vec<u8> = Vec::new();
    wasm.push(119);
    wasm.push(97);
    wasm.push(115);
    wasm.push(109);
    proof {
        assert(html@ =~= ext_html());
        assert(js@ =~= ext_js());
        assert(css@ =~= ext_css());
        assert(png@ =~= ext_png());
        assert(jpg@ =~= ext_jpg());
        assert(wasm@ =~= ext_wasm());
    }
    if crate::wire::bytes_eq(ext_lower, html.as_slice()) {
        Some(ContentType::Html)
    } else if crate::wire::bytes_eq(ext_lower, js.as_slice()) {
        Some(ContentType::Js)
    } else if crate::wire::bytes_eq(ext_lower, css.as_slice()) {
        Some(ContentType::Css)
    } else if crate::wire::bytes_eq(ext_lower, png.as_slice()) {
        Some(ContentType::Png)
    } else if crate::wire::bytes_eq(ext_lower, jpg.as_slice()) {
        Some(ContentType::Jpeg)
    } else if crate::wire::bytes_eq(ext_lower, wasm.as_slice()) {
        Some(ContentType::Wasm)
    } else {
        None
    }
}

/// Decides a request path: surrounding slashes are trimmed; an overlong
/// name is missing; a decimal name is the shell for a positive id and
/// rejected otherwise; an empty name is the shell; any other name is an
/// asset if its extension, lowercased, is one of the served kinds.
pub fn serve_decision(path: &[u8]) -> (r: ServeDecision)
    ensures
        ({
            let f = trim_slashes(path@);
            if f.len() > 1000 {
                r is Missing
            } else if parses_as_i64(f) {
                if dec_i64_val(f) <= 0 {
                    r is Rejected
                } else {
                    r is Index
                }
            } else if f.len() == 0 {
                r is Index
            } else {
                match ext_of(f) {
                    Some(e) => {
                        match content_type_for(lower_bytes(e)) {
                            Some(ct) => r matches ServeDecision::Asset(name, t) && name@ == f && t
                                == ct,
                            None => r is Missing,
                        }
                    },
                    None => r is Missing,
                }
            }
        }),
{
    let name = trim_slashes_exec(path);
    if name.len() > 1000 {
        return ServeDecision::Missing;
    }
    match parse_i64(name.as_slice()) {
        Some(v) => {
            if v <= 0 {
                return ServeDecision::Rejected;
            }
            return ServeDecision::Index;
        },
        None => {},
    }
    if name.len() == 0 {
        return ServeDecision::Index;
    }
    match lower_ext_of(name.as_slice()) {
        Some(ext) => {
            match lookup_content_type(ext.as_slice()) {
                Some(ct) => ServeDecision::Asset(name, ct),
                None => ServeDecision::Missing,
            }
        },
        None => ServeDecision::Missing,
    }
}

} // verus!
