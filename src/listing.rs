//! Directory listings: entry ordering and the HTML index page.
use vstd::prelude::*;
use vstd::multiset::Multiset;
use vstd::seq_lib::*;
use vstd::utf8::*;
use crate::percent::{ascii_chars, encode_segment, percent_encode_bytes};
use crate::text::{chars_of, string_of};

verus! {

broadcast use vstd::seq_lib::group_to_multiset_ensures;

/// Text order by character code, as `str`'s `Ord` (byte order of UTF-8 is
/// code point order).
pub open spec fn text_le(a: Seq<char>, b: Seq<char>) -> bool
    decreases a.len(),
{
    if a.len() == 0 {
        true
    } else if b.len() == 0 {
        false
    } else if a[0] != b[0] {
        (a[0] as u32) < (b[0] as u32)
    } else {
        text_le(a.drop_first(), b.drop_first())
    }
}

pub proof fn lemma_text_le_total(a: Seq<char>, b: Seq<char>)
    ensures
        text_le(a, b) || text_le(b, a),
    decreases a.len(),
{
    if a.len() > 0 && b.len() > 0 {
        if a[0] == b[0] {
            lemma_text_le_total(a.drop_first(), b.drop_first());
        } else {
            vstd::utf8::char_u32_cast(a[0], a[0] as u32);
            vstd::utf8::char_u32_cast(b[0], b[0] as u32);
        }
    }
}

/// Compares two texts by character code.
pub fn text_le_exec(a: &Vec<char>, b: &Vec<char>) -> (r: bool)
    ensures
        r == text_le(a@, b@),
{
    let mut i: usize = 0;
    assert(a@.subrange(0, a@.len() as int) =~= a@);
    assert(b@.subrange(0, b@.len() as int) =~= b@);
    while i < a.len() && i < b.len() && a[i] == b[i]
        invariant
            i <= a@.len(),
            i <= b@.len(),
            text_le(a@, b@) == text_le(a@.subrange(i as int, a@.len() as int), b@.subrange(i as int, b@.len() as int)),
        decreases a.len() - i,
    {
        assert(a@.subrange(i as int, a@.len() as int).drop_first() =~= a@.subrange(i + 1, a@.len() as int));
        assert(b@.subrange(i as int, b@.len() as int).drop_first() =~= b@.subrange(i + 1, b@.len() as int));
        i += 1;
    }
    assert(a@.subrange(0, a@.len() as int) =~= a@);
    assert(b@.subrange(0, b@.len() as int) =~= b@);
    if i == a.len() {
        true
    } else if i == b.len() {
        false
    } else {
        (a[i] as u32) < (b[i] as u32)
    }
}

/// A listing entry with its two sort keys and its name.
pub type Keyed = (Seq<char>, Seq<char>, Seq<char>);

/// Ordered by the first key, then by the second.
pub open spec fn keyed_le(x: Keyed, y: Keyed) -> bool {
    if x.0 == y.0 {
        text_le(x.1, y.1)
    } else {
        text_le(x.0, y.0)
    }
}

pub open spec fn keyed_sorted(s: Seq<Keyed>) -> bool {
    forall|i: int| 0 <= i < s.len() - 1 ==> keyed_le(#[trigger] s[i], s[i + 1])
}

pub open spec fn keyed_view(e: (Vec<char>, Vec<char>, String)) -> Keyed {
    (e.0@, e.1@, e.2@)
}

pub open spec fn keyed_views(v: Seq<(Vec<char>, Vec<char>, String)>) -> Seq<Keyed> {
    v.map_values(|e: (Vec<char>, Vec<char>, String)| keyed_view(e))
}

fn keyed_le_exec(x: &(Vec<char>, Vec<char>, String), y: &(Vec<char>, Vec<char>, String)) -> (r: bool)
    ensures
        r == keyed_le(keyed_view(*x), keyed_view(*y)),
{
    let le0 = text_le_exec(&x.0, &y.0);
    let ge0 = text_le_exec(&y.0, &x.0);
    if le0 && ge0 {
        proof {
            lemma_text_le_antisymmetric(x.0@, y.0@);
        }
        text_le_exec(&x.1, &y.1)
    } else {
        proof {
            if x.0@ == y.0@ {
                lemma_text_le_reflexive(x.0@);
            }
        }
        le0
    }
}

pub proof fn lemma_text_le_reflexive(a: Seq<char>)
    ensures
        text_le(a, a),
    decreases a.len(),
{
    if a.len() > 0 {
        lemma_text_le_reflexive(a.drop_first());
    }
}

pub proof fn lemma_text_le_antisymmetric(a: Seq<char>, b: Seq<char>)
    requires
        text_le(a, b),
        text_le(b, a),
    ensures
        a == b,
    decreases a.len(),
{
    if a.len() > 0 && b.len() > 0 && a[0] == b[0] {
        lemma_text_le_antisymmetric(a.drop_first(), b.drop_first());
        assert(a =~= seq![a[0]] + a.drop_first());
        assert(b =~= seq![b[0]] + b.drop_first());
    }
}

proof fn lemma_keyed_le_total(x: Keyed, y: Keyed)
    ensures
        keyed_le(x, y) || keyed_le(y, x),
{
    lemma_text_le_total(x.0, y.0);
    lemma_text_le_total(x.1, y.1);
}

/// Sorts entries by their keys, ascending; entries with equal keys keep
/// their order.
pub fn sort_keyed(v: Vec<(Vec<char>, Vec<char>, String)>) -> (r: Vec<(Vec<char>, Vec<char>, String)>)
    ensures
        keyed_sorted(keyed_views(r@)),
        keyed_views(r@).to_multiset() == keyed_views(v@).to_multiset(),
{
    let mut out: Vec<(Vec<char>, Vec<char>, String)> = Vec::new();
    let mut rest = v;
    let ghost orig = keyed_views(rest@);
    assert(keyed_views(out@) =~= Seq::<Keyed>::empty());
    while rest.len() > 0
        invariant
            keyed_sorted(keyed_views(out@)),
            orig.to_multiset() == keyed_views(out@).to_multiset().add(keyed_views(rest@).to_multiset()),
        decreases rest.len(),
    {
        let ghost rest_before = keyed_views(rest@);
        let x = rest.pop().unwrap();
        proof {
            assert(rest_before =~= keyed_views(rest@).push(keyed_view(x)));
            to_multiset_build(keyed_views(rest@), keyed_view(x));
        }
        let mut k: usize = out.len();
        while k > 0 && !keyed_le_exec(&out[k - 1], &x)
            invariant
                k <= out@.len(),
                keyed_sorted(keyed_views(out@)),
                forall|j: int| k <= j < out@.len() ==> !keyed_le(keyed_view(#[trigger] out@[j]), keyed_view(x)),
            decreases k,
        {
            k -= 1;
        }
        let ghost before = keyed_views(out@);
        out.insert(k, x);
        proof {
            let after = keyed_views(out@);
            assert(after =~= before.insert(k as int, keyed_view(x)));
            if k < before.len() {
                lemma_keyed_le_total(before[k as int], keyed_view(x));
            }
            assert forall|i: int| 0 <= i < after.len() - 1 implies keyed_le(#[trigger] after[i], after[i + 1]) by {
                if i + 1 < k {
                    assert(after[i] == before[i] && after[i + 1] == before[i + 1]);
                } else if i + 1 == k {
                } else if i == k {
                } else {
                    assert(after[i] == before[i - 1] && after[i + 1] == before[i]);
                }
            }
            to_multiset_insert(before, k as int, keyed_view(x));
            assert(orig.to_multiset() =~= after.to_multiset().add(keyed_views(rest@).to_multiset()));
        }
    }
    assert(keyed_views(rest@) =~= Seq::<Keyed>::empty());
    assert(orig.to_multiset() =~= keyed_views(out@).to_multiset());
    out
}

/// What `str::to_lowercase` returns for a text.
pub uninterp spec fn lower_of(s: Seq<char>) -> Seq<char>;

/// Relies on `str::to_lowercase`: its result depends on the characters alone.
#[verifier::external_body]
fn lowercase(s: &str) -> (r: String)
    ensures
        r@ == lower_of(s@),
{
    s.to_lowercase()
}

/// Where the last `.` of `s` stands, or -1.
pub open spec fn last_dot(s: Seq<char>) -> int
    decreases s.len(),
{
    if s.len() == 0 {
        -1
    } else if s.last() == '.' {
        s.len() - 1
    } else {
        last_dot(s.drop_last())
    }
}

/// The extension of a file name as `Path::extension` gives it, or empty: what
/// follows the last `.`, unless that dot starts the name.
pub open spec fn extension(name: Seq<char>) -> Seq<char> {
    let i = last_dot(name);
    if i <= 0 {
        seq![]
    } else {
        name.subrange(i + 1, name.len() as int)
    }
}

proof fn lemma_last_dot_bounds(s: Seq<char>)
    ensures
        -1 <= last_dot(s) < s.len(),
        last_dot(s) >= 0 ==> s[last_dot(s)] == '.',
    decreases s.len(),
{
    if s.len() > 0 && s.last() != '.' {
        lemma_last_dot_bounds(s.drop_last());
    }
}

/// The extension of a file name.
pub fn extension_of(name: &Vec<char>) -> (r: Vec<char>)
    ensures
        r@ == extension(name@),
{
    let n = name.len();
    let mut j: usize = n;
    assert(name@.subrange(0, n as int) =~= name@);
    while j > 0 && name[j - 1] != '.'
        invariant
            j <= n,
            n == name@.len(),
            last_dot(name@) == last_dot(name@.subrange(0, j as int)),
        decreases j,
    {
        assert(name@.subrange(0, j as int).drop_last() =~= name@.subrange(0, j - 1));
        j -= 1;
    }
    proof {
        assert(name@.subrange(0, n as int) =~= name@);
    }
    let mut r: Vec<char> = Vec::new();
    if j <= 1 {
        return r;
    }
    let mut k: usize = j;
    while k < n
        invariant
            j <= k <= n,
            n == name@.len(),
            r@ =~= name@.subrange(j as int, k as int),
        decreases n - k,
    {
        r.push(name[k]);
        k += 1;
    }
    r
}

/// The sort keys of a listing entry: subdirectories by lower-cased name;
/// files by lower-cased extension, then lower-cased name.
pub open spec fn entry_key(name: Seq<char>, is_file: bool) -> Keyed {
    if is_file {
        (lower_of(extension(name)), lower_of(name), name)
    } else {
        (seq![], lower_of(name), name)
    }
}

pub open spec fn strings_view(v: Seq<String>) -> Seq<Seq<char>> {
    v.map_values(|s: String| s@)
}

pub open spec fn entry_keys(names: Seq<Seq<char>>, is_file: bool) -> Seq<Keyed> {
    names.map_values(|n: Seq<char>| entry_key(n, is_file))
}

/// Entry names in listing order.
pub open spec fn in_listing_order(sorted: Seq<Seq<char>>, names: Seq<Seq<char>>, is_file: bool) -> bool {
    &&& keyed_sorted(entry_keys(sorted, is_file))
    &&& entry_keys(sorted, is_file).to_multiset() == entry_keys(names, is_file).to_multiset()
}

/// Puts entry names in listing order: subdirectories (`is_file` false) by
/// case-insensitive name, files by case-insensitive extension and then name.
pub fn sort_entries(names: &Vec<String>, is_file: bool) -> (r: Vec<String>)
    ensures
        in_listing_order(strings_view(r@), strings_view(names@), is_file),
{
    let mut keyed: Vec<(Vec<char>, Vec<char>, String)> = Vec::new();
    let mut i: usize = 0;
    while i < names.len()
        invariant
            i <= names@.len(),
            keyed_views(keyed@) =~= entry_keys(strings_view(names@.subrange(0, i as int)), is_file),
        decreases names.len() - i,
    {
        let name = names[i].clone();
        let lower_name = chars_of(lowercase(name.as_str()).as_str());
        let k0 = if is_file {
            let cs = chars_of(name.as_str());
            let ext = string_of(&extension_of(&cs));
            chars_of(lowercase(ext.as_str()).as_str())
        } else {
            Vec::new()
        };
        assert(k0@ == entry_key(names@[i as int]@, is_file).0);
        let ghost before = keyed_views(keyed@);
        keyed.push((k0, lower_name, name));
        proof {
            assert(keyed_views(keyed@) =~= before.push(entry_key(names@[i as int]@, is_file)));
            assert(names@.subrange(0, i + 1) =~= names@.subrange(0, i as int).push(names@[i as int]));
        }
        i += 1;
    }
    proof {
        assert(names@.subrange(0, names@.len() as int) =~= names@);
    }
    let ghost input = keyed_views(keyed@);
    let sorted = sort_keyed(keyed);
    let ghost ks = keyed_views(sorted@);
    let mut out: Vec<String> = Vec::new();
    let mut j: usize = 0;
    while j < sorted.len()
        invariant
            j <= sorted@.len(),
            ks == keyed_views(sorted@),
            ks.to_multiset() == input.to_multiset(),
            input == entry_keys(strings_view(names@), is_file),
            out@.len() == j,
            forall|m: int| 0 <= m < j ==> ks[m] == entry_key(#[trigger] out@[m]@, is_file),
        decreases sorted.len() - j,
    {
        let name = sorted[j].2.clone();
        proof {
            let k = ks[j as int];
            assert(ks.contains(k));
            assert(ks.to_multiset().count(k) > 0);
            assert(input.contains(k));
            let w = choose|w: int| 0 <= w < input.len() && input[w] == k;
            assert(k == entry_key(strings_view(names@)[w], is_file));
        }
        out.push(name);
        j += 1;
    }
    proof {
        assert(entry_keys(strings_view(out@), is_file) =~= ks);
    }
    out
}

/// A path segment as it stands in a link: percent-encoded.
pub open spec fn encoded(s: Seq<char>) -> Seq<char> {
    ascii_chars(percent_encode_bytes(encode_utf8(s)))
}

/// The segments, each percent-encoded, joined by `/`.
pub open spec fn href_path(segs: Seq<Seq<char>>) -> Seq<char>
    decreases segs.len(),
{
    if segs.len() == 0 {
        seq![]
    } else if segs.len() == 1 {
        encoded(segs[0])
    } else {
        href_path(segs.drop_last()) + "/"@ + encoded(segs.last())
    }
}

/// The segments joined by `/`.
pub open spec fn plain_path(segs: Seq<Seq<char>>) -> Seq<char>
    decreases segs.len(),
{
    if segs.len() == 0 {
        seq![]
    } else if segs.len() == 1 {
        segs[0]
    } else {
        plain_path(segs.drop_last()) + "/"@ + segs.last()
    }
}

pub open spec fn parent_segments(segs: Seq<Seq<char>>) -> Seq<Seq<char>> {
    if segs.len() == 0 {
        segs
    } else {
        segs.drop_last()
    }
}

pub open spec fn entry_line(segs: Seq<Seq<char>>, name: Seq<char>, is_dir: bool) -> Seq<char> {
    if is_dir {
        "<a href=\"/"@ + href_path(segs.push(name)) + "\">[DIR] "@ + name + "/</a>\n"@
    } else {
        "<a href=\"/"@ + href_path(segs.push(name)) + "\">"@ + name + "</a>\n"@
    }
}

pub open spec fn entry_lines(segs: Seq<Seq<char>>, names: Seq<Seq<char>>, is_dir: bool) -> Seq<char>
    decreases names.len(),
{
    if names.len() == 0 {
        seq![]
    } else {
        entry_lines(segs, names.drop_last(), is_dir) + entry_line(segs, names.last(), is_dir)
    }
}

/// The HTML index of the directory whose path (from the served tree's base)
/// has the segments `segs`: a link to the parent unless `at_root`, then the
/// subdirectories, then the files, in the order given.
pub open spec fn listing_page(
    segs: Seq<Seq<char>>,
    at_root: bool,
    dirs: Seq<Seq<char>>,
    files: Seq<Seq<char>>,
) -> Seq<char> {
    "<!DOCTYPE html>\n<html>\n<meta charset=\"UTF-8\"><head><title>Directory listing for /"@
        + plain_path(segs) + "</title></head>\n<body>\n<h1>Directory listing for /"@
        + plain_path(segs) + "</h1>\n<hr>\n<pre>\n"@ + (if at_root {
        seq![]
    } else {
        "<a href=\"/"@ + href_path(parent_segments(segs)) + "\">[Parent Directory]</a>\n"@
    }) + entry_lines(segs, dirs, true) + entry_lines(segs, files, false)
        + "</pre>\n<hr>\n</body>\n</html>\n"@
}

fn append(out: &mut Vec<char>, s: &str)
    ensures
        final(out)@ == old(out)@ + s@,
{
    let cs = chars_of(s);
    let mut i: usize = 0;
    let ghost start = out@;
    while i < cs.len()
        invariant
            i <= cs@.len(),
            cs@ == s@,
            out@ =~= start + cs@.subrange(0, i as int),
        decreases cs.len() - i,
    {
        out.push(cs[i]);
        i += 1;
    }
}

fn append_href(out: &mut Vec<char>, segs: &Vec<String>, upto: usize, last: Option<&String>)
    requires
        upto <= segs@.len(),
    ensures
        final(out)@ == old(out)@ + href_path(match last {
            Some(l) => strings_view(segs@.subrange(0, upto as int)).push(l@),
            None => strings_view(segs@.subrange(0, upto as int)),
        }),
{
    let ghost start = out@;
    let mut i: usize = 0;
    while i < upto
        invariant
            i <= upto <= segs@.len(),
            out@ == start + href_path(strings_view(segs@.subrange(0, i as int))),
        decreases upto - i,
    {
        if i > 0 {
            append(out, "/");
        }
        append(out, encode_segment(segs[i].as_str()).as_str());
        proof {
            let sv = strings_view(segs@.subrange(0, i + 1));
            assert(sv.drop_last() =~= strings_view(segs@.subrange(0, i as int)));
            assert(out@ =~= start + href_path(sv));
        }
        i += 1;
    }
    match last {
        Some(l) => {
            if upto > 0 {
                append(out, "/");
            }
            append(out, encode_segment(l.as_str()).as_str());
            proof {
                let sv = strings_view(segs@.subrange(0, upto as int)).push(l@);
                assert(sv.drop_last() =~= strings_view(segs@.subrange(0, upto as int)));
                assert(out@ =~= start + href_path(sv));
            }
        },
        None => {},
    }
}

fn append_plain_path(out: &mut Vec<char>, segs: &Vec<String>)
    ensures
        final(out)@ == old(out)@ + plain_path(strings_view(segs@)),
{
    let ghost start = out@;
    let mut i: usize = 0;
    while i < segs.len()
        invariant
            i <= segs@.len(),
            out@ == start + plain_path(strings_view(segs@.subrange(0, i as int))),
        decreases segs.len() - i,
    {
        if i > 0 {
            append(out, "/");
        }
        append(out, segs[i].as_str());
        proof {
            let sv = strings_view(segs@.subrange(0, i + 1));
            assert(sv.drop_last() =~= strings_view(segs@.subrange(0, i as int)));
            assert(out@ =~= start + plain_path(sv));
        }
        i += 1;
    }
    proof {
        assert(segs@.subrange(0, segs@.len() as int) =~= segs@);
    }
}

fn append_entries(out: &mut Vec<char>, segs: &Vec<String>, names: &Vec<String>, is_dir: bool)
    ensures
        final(out)@ == old(out)@ + entry_lines(strings_view(segs@), strings_view(names@), is_dir),
{
    let ghost start = out@;
    let ghost sv = strings_view(segs@);
    let mut i: usize = 0;
    while i < names.len()
        invariant
            i <= names@.len(),
            sv == strings_view(segs@),
            out@ == start + entry_lines(sv, strings_view(names@.subrange(0, i as int)), is_dir),
        decreases names.len() - i,
    {
        let ghost before = out@;
        append(out, "<a href=\"/");
        append_href(out, segs, segs.len(), Some(&names[i]));
        if is_dir {
            append(out, "\">[DIR] ");
            append(out, names[i].as_str());
            append(out, "/</a>\n");
        } else {
            append(out, "\">");
            append(out, names[i].as_str());
            append(out, "</a>\n");
        }
        proof {
            assert(segs@.subrange(0, segs@.len() as int) =~= segs@);
            let nv = strings_view(names@.subrange(0, i + 1));
            assert(nv.drop_last() =~= strings_view(names@.subrange(0, i as int)));
            assert(out@ =~= before + entry_line(sv, names@[i as int]@, is_dir));
            assert(out@ =~= start + entry_lines(sv, nv, is_dir));
        }
        i += 1;
    }
    proof {
        assert(names@.subrange(0, names@.len() as int) =~= names@);
    }
}

/// Renders the index page of a directory whose entries are already in
/// listing order.
pub fn render_listing(segs: &Vec<String>, at_root: bool, dirs: &Vec<String>, files: &Vec<String>) -> (r: String)
    ensures
        r@ == listing_page(strings_view(segs@), at_root, strings_view(dirs@), strings_view(files@)),
{
    let mut out: Vec<char> = Vec::new();
    append(&mut out, "<!DOCTYPE html>\n<html>\n<meta charset=\"UTF-8\"><head><title>Directory listing for /");
    append_plain_path(&mut out, segs);
    append(&mut out, "</title></head>\n<body>\n<h1>Directory listing for /");
    append_plain_path(&mut out, segs);
    append(&mut out, "</h1>\n<hr>\n<pre>\n");
    let ghost mid = out@;
    if !at_root {
        append(&mut out, "<a href=\"/");
        let upto = if segs.len() > 0 { segs.len() - 1 } else { 0 };
        append_href(&mut out, segs, upto, None);
        append(&mut out, "\">[Parent Directory]</a>\n");
        proof {
            let sv = strings_view(segs@);
            if segs@.len() > 0 {
                assert(strings_view(segs@.subrange(0, upto as int)) =~= parent_segments(sv));
            } else {
                assert(strings_view(segs@.subrange(0, upto as int)) =~= parent_segments(sv));
            }
        }
    }
    append_entries(&mut out, segs, dirs, true);
    append_entries(&mut out, segs, files, false);
    append(&mut out, "</pre>\n<hr>\n</body>\n</html>\n");
    proof {
        assert(out@ =~= listing_page(strings_view(segs@), at_root, strings_view(dirs@), strings_view(files@)));
    }
    string_of(&out)
}

/// The index page of a directory: subdirectories first, then files, each
/// group in listing order, with a parent link unless `at_root`.
pub fn list_directory(segs: &Vec<String>, at_root: bool, dirs: &Vec<String>, files: &Vec<String>) -> (r: String)
    ensures
        exists|ds: Seq<Seq<char>>, fs: Seq<Seq<char>>|
            in_listing_order(ds, strings_view(dirs@), false) && in_listing_order(fs, strings_view(files@), true)
            && r@ == listing_page(strings_view(segs@), at_root, ds, fs),
{
    let ds = sort_entries(dirs, false);
    let fs = sort_entries(files, true);
    render_listing(segs, at_root, &ds, &fs)
}

} // verus!
