//! Rekordbox `file://` URIs for the audio files of a device.

use vstd::prelude::*;

verus! {

/// The scheme and host that every track location starts with.
pub open spec fn location_prefix() -> Seq<char> {
    seq!['f', 'i', 'l', 'e', ':', '/', '/', 'l', 'o', 'c', 'a', 'l', 'h', 'o', 's', 't', '/']
}

/// `s` with every backslash turned into a forward slash.
pub open spec fn forward_slashes(s: Seq<char>) -> Seq<char> {
    s.map_values(|c: char| if c == '\\' { '/' } else { c })
}

/// `s` without any of the slashes it ends with.
pub open spec fn trim_trailing_slashes(s: Seq<char>) -> Seq<char>
    decreases s.len(),
{
    if s.len() > 0 && s.last() == '/' {
        trim_trailing_slashes(s.drop_last())
    } else {
        s
    }
}

/// `s` without any of the slashes it starts with.
pub open spec fn trim_leading_slashes(s: Seq<char>) -> Seq<char>
    decreases s.len(),
{
    if s.len() > 0 && s[0] == '/' {
        trim_leading_slashes(s.drop_first())
    } else {
        s
    }
}

/// The full path of a file: the base directory, with forward slashes and no
/// trailing slash, a single slash, and the device path without its leading
/// slashes.
pub open spec fn joined_path(base: Seq<char>, path: Seq<char>) -> Seq<char> {
    trim_trailing_slashes(forward_slashes(base)) + seq!['/'] + trim_leading_slashes(path)
}

/// The characters that stand for `c` in a location: the four reserved
/// characters space, `#`, `%` and `?` become a percent escape, every other
/// character stands for itself.
pub open spec fn encode_char(c: char) -> Seq<char> {
    if c == ' ' {
        seq!['%', '2', '0']
    } else if c == '#' {
        seq!['%', '2', '3']
    } else if c == '%' {
        seq!['%', '2', '5']
    } else if c == '?' {
        seq!['%', '3', 'F']
    } else {
        seq![c]
    }
}

/// `s` with each character replaced by what `encode_char` gives for it.
pub open spec fn percent_encode(s: Seq<char>) -> Seq<char>
    decreases s.len(),
{
    if s.len() == 0 {
        seq![]
    } else {
        encode_char(s[0]) + percent_encode(s.drop_first())
    }
}

/// The character that the escape `%ab` stands for, if it is one of the four
/// escapes that `encode_char` writes.
pub open spec fn unescape(a: char, b: char) -> Option<char> {
    if a == '2' && b == '0' {
        Some(' ')
    } else if a == '2' && b == '3' {
        Some('#')
    } else if a == '2' && b == '5' {
        Some('%')
    } else if a == '3' && b == 'F' {
        Some('?')
    } else {
        None
    }
}

/// Reads a location back: each of the four escapes becomes its character,
/// everything else is kept.
pub open spec fn percent_decode(s: Seq<char>) -> Seq<char>
    decreases s.len(),
{
    if s.len() == 0 {
        seq![]
    } else if s.len() >= 3 && s[0] == '%' && unescape(s[1], s[2]) is Some {
        seq![unescape(s[1], s[2])->0] + percent_decode(s.skip(3))
    } else {
        seq![s[0]] + percent_decode(s.skip(1))
    }
}

/// The rekordbox location of the file at `path` on a device whose contents
/// lie under the directory `base`.
pub open spec fn location_uri(base: Seq<char>, path: Seq<char>) -> Seq<char> {
    location_prefix() + percent_encode(joined_path(base, path))
}

/// Encoding a concatenation encodes each part.
pub proof fn lemma_encode_append(a: Seq<char>, b: Seq<char>)
    ensures
        percent_encode(a + b) == percent_encode(a) + percent_encode(b),
    decreases a.len(),
{
    if a.len() == 0 {
        assert(a + b =~= b);
    } else {
        lemma_encode_append(a.drop_first(), b);
        assert((a + b).drop_first() =~= a.drop_first() + b);
        assert(percent_encode(a + b) =~= encode_char(a[0]) + percent_encode(a.drop_first() + b));
    }
}

proof fn lemma_encode_push(a: Seq<char>, c: char)
    ensures
        percent_encode(a.push(c)) == percent_encode(a) + encode_char(c),
{
    lemma_encode_append(a, seq![c]);
    assert(a.push(c) =~= a + seq![c]);
    let one = seq![c];
    assert(one[0] == c);
    assert(one.drop_first() =~= Seq::<char>::empty());
    assert(percent_encode(Seq::<char>::empty()) =~= Seq::<char>::empty());
    assert(percent_encode(one) =~= encode_char(c));
}

/// Decoding undoes encoding: the path can always be read back from its
/// location.
pub proof fn lemma_decode_encode(s: Seq<char>)
    ensures
        percent_decode(percent_encode(s)) == s,
    decreases s.len(),
{
    if s.len() == 0 {
    } else {
        let e = encode_char(s[0]);
        let rest = percent_encode(s.drop_first());
        lemma_decode_encode(s.drop_first());
        let whole = e + rest;
        assert(whole.skip(e.len() as int) =~= rest);
        assert(percent_decode(whole) =~= seq![s[0]] + s.drop_first());
        assert(seq![s[0]] + s.drop_first() =~= s);
    }
}

/// An encoded path holds no space, `#` or `?`.
pub proof fn lemma_encode_no_reserved(s: Seq<char>)
    ensures
        forall|i: int|
            0 <= i < percent_encode(s).len() ==> {
                let c = #[trigger] percent_encode(s)[i];
                c != ' ' && c != '#' && c != '?'
            },
    decreases s.len(),
{
    if s.len() > 0 {
        lemma_encode_no_reserved(s.drop_first());
        let e = encode_char(s[0]);
        let rest = percent_encode(s.drop_first());
        assert forall|i: int| 0 <= i < percent_encode(s).len() implies {
            let c = #[trigger] percent_encode(s)[i];
            c != ' ' && c != '#' && c != '?'
        } by {
            if i >= e.len() {
                assert(percent_encode(s)[i] == rest[i - e.len()]);
            }
        }
    }
}

/// Every `%` of an encoded path starts one of the four escapes.
pub proof fn lemma_encode_percent_escapes(s: Seq<char>)
    ensures
        forall|i: int|
            0 <= i < percent_encode(s).len() && #[trigger] percent_encode(s)[i] == '%' ==> {
                &&& i + 2 < percent_encode(s).len()
                &&& unescape(percent_encode(s)[i + 1], percent_encode(s)[i + 2]) is Some
            },
    decreases s.len(),
{
    if s.len() > 0 {
        lemma_encode_percent_escapes(s.drop_first());
        let e = encode_char(s[0]);
        let rest = percent_encode(s.drop_first());
        let whole = percent_encode(s);
        assert(whole =~= e + rest);
        assert forall|i: int| 0 <= i < whole.len() && #[trigger] whole[i] == '%' implies {
            &&& i + 2 < whole.len()
            &&& unescape(whole[i + 1], whole[i + 2]) is Some
        } by {
            if i >= e.len() {
                assert(whole[i] == rest[i - e.len()]);
                assert(whole[i + 1] == rest[i + 1 - e.len()]);
                assert(whole[i + 2] == rest[i + 2 - e.len()]);
            } else {
                assert(e.len() == 3);
                assert(whole[1] == e[1] && whole[2] == e[2]);
            }
        }
    }
}

/// A location is the prefix followed by the encoded path, which decodes back
/// to the joined path and holds no space, `#` or `?`; every `%` in it starts
/// one of the four escapes.
pub proof fn lemma_location_reads_back(base: Seq<char>, path: Seq<char>)
    ensures
        location_uri(base, path).take(location_prefix().len() as int) == location_prefix(),
        percent_decode(location_uri(base, path).skip(location_prefix().len() as int))
            == joined_path(base, path),
        forall|i: int|
            location_prefix().len() <= i < location_uri(base, path).len() ==> {
                let c = #[trigger] location_uri(base, path)[i];
                c != ' ' && c != '#' && c != '?'
            },
        forall|i: int|
            0 <= i < location_uri(base, path).len() && #[trigger] location_uri(base, path)[i]
                == '%' ==> {
                &&& i + 2 < location_uri(base, path).len()
                &&& unescape(location_uri(base, path)[i + 1], location_uri(base, path)[i + 2]) is Some
            },
{
    let e = percent_encode(joined_path(base, path));
    let u = location_uri(base, path);
    assert(u.take(location_prefix().len() as int) =~= location_prefix());
    assert(u.skip(location_prefix().len() as int) =~= e);
    lemma_decode_encode(joined_path(base, path));
    lemma_encode_no_reserved(joined_path(base, path));
    lemma_encode_percent_escapes(joined_path(base, path));
    let n = location_prefix().len() as int;
    assert forall|i: int| 0 <= i < u.len() && #[trigger] u[i] == '%' implies {
        &&& i + 2 < u.len()
        &&& unescape(u[i + 1], u[i + 2]) is Some
    } by {
        if i < n {
            assert(u[i] == location_prefix()[i]);
        } else {
            assert(u[i] == e[i - n]);
            assert(u[i + 1] == e[i + 1 - n]);
            assert(u[i + 2] == e[i + 2 - n]);
        }
    }
    assert forall|i: int| location_prefix().len() <= i < u.len() implies {
        let c = #[trigger] u[i];
        c != ' ' && c != '#' && c != '?'
    } by {
        assert(u[i] == e[i - location_prefix().len()]);
    }
}

proof fn trailing_cut(s: Seq<char>) -> (m: int)
    ensures
        0 <= m <= s.len(),
        trim_trailing_slashes(s) == s.take(m),
        forall|i: int| m <= i < s.len() ==> s[i] == '/',
        m > 0 ==> s[m - 1] != '/',
    decreases s.len(),
{
    if s.len() > 0 && s.last() == '/' {
        let m = trailing_cut(s.drop_last());
        assert(s.drop_last().take(m) =~= s.take(m));
        assert forall|i: int| m <= i < s.len() implies s[i] == '/' by {
            if i < s.len() - 1 {
                assert(s.drop_last()[i] == s[i]);
            }
        }
        m
    } else {
        assert(s.take(s.len() as int) =~= s);
        s.len() as int
    }
}

proof fn leading_cut(s: Seq<char>) -> (k: int)
    ensures
        0 <= k <= s.len(),
        trim_leading_slashes(s) == s.skip(k),
        forall|i: int| 0 <= i < k ==> s[i] == '/',
        k < s.len() ==> s[k] != '/',
    decreases s.len(),
{
    if s.len() > 0 && s[0] == '/' {
        let k = leading_cut(s.drop_first());
        assert(s.drop_first().skip(k) =~= s.skip(k + 1));
        assert forall|i: int| 0 <= i < k + 1 implies s[i] == '/' by {
            if i > 0 {
                assert(s.drop_first()[i - 1] == s[i]);
            }
        }
        if k + 1 < s.len() {
            assert(s.drop_first()[k] == s[k + 1]);
        }
        k + 1
    } else {
        assert(s.skip(0) =~= s);
        0
    }
}

/// A location is `file://localhost/` followed by the encoding of exactly
/// this path: the base directory with each backslash made a slash and
/// without the slashes it ends with, one slash, and the whole device path
/// without the slashes it starts with. Nothing else of either is dropped,
/// and nothing is added.
pub proof fn lemma_location_parts(base: Seq<char>, path: Seq<char>) -> (cut: (int, int))
    ensures
        location_uri(base, path).take(17) == seq![
            'f', 'i', 'l', 'e', ':', '/', '/', 'l', 'o', 'c', 'a', 'l', 'h', 'o', 's', 't', '/',
        ],
        ({
            let (m, k) = cut;
            &&& 0 <= m <= base.len()
            &&& 0 <= k <= path.len()
            &&& forall|i: int| m <= i < base.len() ==> (base[i] == '/' || base[i] == '\\')
            &&& m > 0 ==> base[m - 1] != '/' && base[m - 1] != '\\'
            &&& forall|i: int| 0 <= i < k ==> path[i] == '/'
            &&& k < path.len() ==> path[k] != '/'
            &&& percent_decode(location_uri(base, path).skip(17)) == Seq::new(
                m as nat,
                |i: int| if base[i] == '\\' { '/' } else { base[i] },
            ) + seq!['/'] + path.skip(k)
        }),
{
    lemma_location_reads_back(base, path);
    let f = forward_slashes(base);
    let m = trailing_cut(f);
    let k = leading_cut(path);
    assert(f.take(m) =~= Seq::new(m as nat, |i: int| if base[i] == '\\' { '/' } else { base[i] }));
    assert forall|i: int| m <= i < base.len() implies (base[i] == '/' || base[i] == '\\') by {
        assert(f[i] == '/');
    }
    if m > 0 {
        assert(f[m - 1] != '/');
    }
    assert(location_uri(base, path).take(17) =~= location_prefix());
    (m, k)
}

/// Makes a `String` of `chars` with std's `Iterator::collect` into a
/// `String` (`FromIterator<&char> for String`); the contract claims that the
/// string holds exactly those characters, in order.
#[verifier::external_body]
fn string_from_chars(chars: &Vec<char>) -> (s: String)
    ensures
        s@ == chars@,
{
    chars.iter().collect()
}

/// The characters of `s`, in order.
pub(crate) fn chars_of(s: &str) -> (v: Vec<char>)
    ensures
        v@ == s@,
{
    let mut v: Vec<char> = Vec::new();
    for c in it: s.chars()
        invariant
            v@ == it.seq().take(it.index() as int),
    {
        v.push(c);
    }
    v
}

fn push_encoded(out: &mut Vec<char>, c: char)
    ensures
        final(out)@ == old(out)@ + encode_char(c),
{
    if c == ' ' {
        out.push('%');
        out.push('2');
        out.push('0');
    } else if c == '#' {
        out.push('%');
        out.push('2');
        out.push('3');
    } else if c == '%' {
        out.push('%');
        out.push('2');
        out.push('5');
    } else if c == '?' {
        out.push('%');
        out.push('3');
        out.push('F');
    } else {
        out.push(c);
    }
    assert(final(out)@ =~= old(out)@ + encode_char(c));
}

/// Converts a file path of a device database and the directory under which
/// the device's files lie (a Windows path such as `O:\PIONEER\USB`) into the
/// `file://localhost/` URI that rekordbox expects as a track location.
pub fn make_location_uri(base_path: &str, pdb_file_path: &str) -> (uri: String)
    ensures
        uri@ == location_uri(base_path@, pdb_file_path@),
{
    let base = chars_of(base_path);
    let path = chars_of(pdb_file_path);
    let mut full: Vec<char> = Vec::new();
    for i in 0..base.len()
        invariant
            full@ =~= forward_slashes(base@.take(i as int)),
    {
        let c = base[i];
        if c == '\\' {
            full.push('/');
        } else {
            full.push(c);
        }
        assert(base@.take(i + 1) =~= base@.take(i as int).push(c));
    }
    assert(base@.take(base@.len() as int) =~= base@);
    let mut end = full.len();
    assert(full@.take(full@.len() as int) =~= full@);
    while end > 0 && full[end - 1] == '/'
        invariant
            end <= full@.len(),
            trim_trailing_slashes(full@.take(end as int)) == trim_trailing_slashes(full@),
        decreases end,
    {
        assert(full@.take(end as int).drop_last() =~= full@.take(end - 1));
        end = end - 1;
    }
    full.truncate(end);
    full.push('/');
    let mut start: usize = 0;
    assert(path@.skip(0) =~= path@);
    while start < path.len() && path[start] == '/'
        invariant
            start <= path@.len(),
            trim_leading_slashes(path@.skip(start as int)) == trim_leading_slashes(path@),
        decreases path.len() - start,
    {
        assert(path@.skip(start as int).drop_first() =~= path@.skip(start + 1));
        start = start + 1;
    }
    let ghost head = full@;
    for j in start..path.len()
        invariant
            start <= j <= path@.len(),
            full@ =~= head + path@.subrange(start as int, j as int),
    {
        full.push(path[j]);
    }
    assert(path@.subrange(start as int, path@.len() as int) =~= path@.skip(start as int));
    assert(full@ == joined_path(base_path@, pdb_file_path@));
    let mut encoded: Vec<char> = Vec::new();
    for k in 0..full.len()
        invariant
            encoded@ == percent_encode(full@.take(k as int)),
    {
        proof {
            lemma_encode_push(full@.take(k as int), full@[k as int]);
            assert(full@.take(k + 1) =~= full@.take(k as int).push(full@[k as int]));
        }
        push_encoded(&mut encoded, full[k]);
    }
    assert(full@.take(full@.len() as int) =~= full@);
    let body = string_from_chars(&encoded);
    let mut uri = String::from_str("file://localhost/");
    proof {
        reveal_strlit("file://localhost/");
    }
    assert(uri@ =~= location_prefix());
    uri.append(body.as_str());
    uri
}

} // verus!
