//! Character-level string utilities with exact specifications.

use vstd::prelude::*;
use vstd::utf8::*;
use vstd::string::StringSliceAdditionalSpecFns;

verus! {

/// Collects the characters of a string slice.
pub fn chars_of(s: &str) -> (v: Vec<char>)
    ensures
        v@ == s@,
{
    let mut v: Vec<char> = Vec::new();
    for c in it: s.chars()
        invariant
            it.seq() == s@,
            v@ == it.seq().take(it.index()),
    {
        v.push(c);
    }
    v
}

/// Builds a `String` from a slice of characters (std `String::from_iter`).
#[verifier::external_body]
pub(crate) fn string_from_chars(cs: &[char]) -> (s: String)
    ensures
        s@ == cs@,
{
    String::from_iter(cs.iter())
}

/// Appends every character of `extra` to `out`.
pub fn push_all(out: &mut Vec<char>, extra: &Vec<char>)
    ensures
        final(out)@ == old(out)@ + extra@,
{
    let ghost start = out@;
    let mut k: usize = 0;
    while k < extra.len()
        invariant
            k <= extra.len(),
            out@ == start + extra@.take(k as int),
        decreases extra.len() - k,
    {
        out.push(extra[k]);
        k += 1;
        assert(extra@.take(k as int) =~= extra@.take(k - 1) .push(extra@[k - 1]));
    }
    assert(extra@.take(k as int) =~= extra@);
}

/// Concatenation of two strings.
pub fn concatenate(a: &str, b: &str) -> (r: String)
    ensures
        r@ == a@ + b@,
{
    let mut r = a.to_owned();
    r.append(b);
    r
}

/// `needle` occurs in `s` starting at position `i`.
pub open spec fn occurs_at(s: Seq<char>, needle: Seq<char>, i: int) -> bool {
    &&& 0 <= i
    &&& i + needle.len() <= s.len()
    &&& s.subrange(i, i + needle.len()) == needle
}

/// `needle` occurs somewhere in `s` (the empty needle occurs everywhere).
pub open spec fn seq_contains(s: Seq<char>, needle: Seq<char>) -> bool {
    exists|i: int| occurs_at(s, needle, i)
}

/// Tests whether `needle` occurs in `s` at position `i`.
pub fn occurs_at_exec(s: &Vec<char>, needle: &Vec<char>, i: usize) -> (b: bool)
    requires
        i <= s.len(),
    ensures
        b == occurs_at(s@, needle@, i as int),
{
    if needle.len() > s.len() - i {
        return false;
    }
    let mut k: usize = 0;
    while k < needle.len()
        invariant
            i + needle.len() <= s.len(),
            k <= needle.len(),
            forall|j: int| 0 <= j < k ==> s@[i + j] == needle@[j],
        decreases needle.len() - k,
    {
        if s[i + k] != needle[k] {
            assert(s@.subrange(i as int, i + needle.len())[k as int] != needle@[k as int]);
            return false;
        }
        k += 1;
    }
    assert(s@.subrange(i as int, i + needle.len()) =~= needle@);
    true
}

/// Substring test on character vectors.
pub fn contains_chars(s: &Vec<char>, needle: &Vec<char>) -> (b: bool)
    ensures
        b == seq_contains(s@, needle@),
{
    let mut i: usize = 0;
    while i < s.len()
        invariant
            i <= s.len(),
            forall|j: int| 0 <= j < i ==> !occurs_at(s@, needle@, j),
        decreases s.len() - i,
    {
        if occurs_at_exec(s, needle, i) {
            return true;
        }
        i += 1;
    }
    if occurs_at_exec(s, needle, i) {
        return true;
    }
    assert forall|j: int| !occurs_at(s@, needle@, j) by {
        if 0 <= j <= i {
        }
    }
    false
}

/// `str::contains` with a string pattern.
pub fn str_contains(s: &str, needle: &str) -> (b: bool)
    ensures
        b == seq_contains(s@, needle@),
{
    let sv = chars_of(s);
    let nv = chars_of(needle);
    contains_chars(&sv, &nv)
}

/// Left-to-right replacement of every non-overlapping occurrence of a
/// non-empty `from` by `to`.
pub open spec fn replace_seq(s: Seq<char>, from: Seq<char>, to: Seq<char>) -> Seq<char>
    decreases s.len(),
{
    if s.len() == 0 {
        seq![]
    } else if from.len() > 0 && occurs_at(s, from, 0) {
        to + replace_seq(s.skip(from.len() as int), from, to)
    } else {
        seq![s[0]] + replace_seq(s.skip(1), from, to)
    }
}

proof fn lemma_occurs_at_skip(s: Seq<char>, from: Seq<char>, i: int)
    requires
        0 <= i <= s.len(),
    ensures
        occurs_at(s, from, i) == occurs_at(s.skip(i), from, 0),
{
    if i + from.len() <= s.len() {
        assert(s.skip(i).subrange(0, from.len() as int) =~= s.subrange(i, i + from.len()));
    }
}

/// `str::replace` for a non-empty pattern.
pub fn replace_all(s: &str, from: &str, to: &str) -> (r: String)
    requires
        from@.len() > 0,
    ensures
        r@ == replace_seq(s@, from@, to@),
{
    let sv = chars_of(s);
    let fv = chars_of(from);
    let tv = chars_of(to);
    let mut out: Vec<char> = Vec::new();
    let mut i: usize = 0;
    assert(sv@.skip(0) =~= sv@);
    while i < sv.len()
        invariant
            i <= sv.len(),
            fv@ == from@,
            fv@.len() > 0,
            out@ + replace_seq(sv@.skip(i as int), fv@, tv@) == replace_seq(sv@, fv@, tv@),
        decreases sv.len() - i,
    {
        let ghost rest = sv@.skip(i as int);
        proof {
            lemma_occurs_at_skip(sv@, fv@, i as int);
        }
        if occurs_at_exec(&sv, &fv, i) {
            let ghost old_out = out@;
            push_all(&mut out, &tv);
            assert(rest.skip(fv@.len() as int) =~= sv@.skip(i + fv@.len()));
            assert(old_out + (tv@ + replace_seq(rest.skip(fv@.len() as int), fv@, tv@))
                =~= out@ + replace_seq(sv@.skip(i + fv@.len()), fv@, tv@));
            i += fv.len();
        } else {
            let ghost old_out = out@;
            out.push(sv[i]);
            assert(rest.skip(1) =~= sv@.skip(i + 1));
            assert(old_out + (seq![rest[0]] + replace_seq(rest.skip(1), fv@, tv@))
                =~= out@ + replace_seq(sv@.skip(i + 1), fv@, tv@));
            i += 1;
        }
    }
    assert(sv@.skip(i as int) =~= Seq::<char>::empty());
    assert(out@ =~= replace_seq(sv@, fv@, tv@));
    string_from_chars(out.as_slice())
}

/// `s` without all trailing copies of `c`.
pub open spec fn trim_end_seq(s: Seq<char>, c: char) -> Seq<char>
    decreases s.len(),
{
    if s.len() > 0 && s.last() == c {
        trim_end_seq(s.drop_last(), c)
    } else {
        s
    }
}

/// `str::trim_end_matches` with a single character pattern.
pub fn trim_end_char(s: &str, c: char) -> (r: String)
    ensures
        r@ == trim_end_seq(s@, c),
{
    let mut v = chars_of(s);
    let mut j: usize = v.len();
    assert(v@.take(j as int) =~= v@);
    while j > 0 && v[j - 1] == c
        invariant
            j <= v.len(),
            v@ == s@,
            trim_end_seq(v@.take(j as int), c) == trim_end_seq(s@, c),
        decreases j,
    {
        assert(v@.take(j as int).drop_last() =~= v@.take(j - 1));
        j -= 1;
    }
    v.truncate(j);
    string_from_chars(v.as_slice())
}

/// ASCII lower-casing of one character, as a code point.
pub open spec fn ascii_lower_code(c: char) -> u32 {
    if 'A' <= c && c <= 'Z' {
        (c as u32 + 32) as u32
    } else {
        c as u32
    }
}

/// Equality of two character sequences up to ASCII case.
pub open spec fn eq_ignore_ascii_case_seq(a: Seq<char>, b: Seq<char>) -> bool {
    &&& a.len() == b.len()
    &&& forall|i: int| 0 <= i < a.len() ==> ascii_lower_code(#[trigger] a[i]) == ascii_lower_code(b[i])
}

fn ascii_lower_code_exec(c: char) -> (r: u32)
    ensures
        r == ascii_lower_code(c),
{
    if 'A' <= c && c <= 'Z' {
        c as u32 + 32
    } else {
        c as u32
    }
}

/// `str::eq_ignore_ascii_case`.
pub fn eq_ignore_ascii_case(a: &str, b: &str) -> (r: bool)
    ensures
        r == eq_ignore_ascii_case_seq(a@, b@),
{
    let av = chars_of(a);
    let bv = chars_of(b);
    if av.len() != bv.len() {
        return false;
    }
    let mut i: usize = 0;
    while i < av.len()
        invariant
            av@ == a@,
            bv@ == b@,
            av.len() == bv.len(),
            i <= av.len(),
            forall|j: int| 0 <= j < i ==> ascii_lower_code(#[trigger] av@[j]) == ascii_lower_code(bv@[j]),
        decreases av.len() - i,
    {
        if ascii_lower_code_exec(av[i]) != ascii_lower_code_exec(bv[i]) {
            return false;
        }
        i += 1;
    }
    true
}

/// Ignoring ASCII case is a symmetric relation.
pub proof fn lemma_eq_ignore_ascii_case_symmetric(a: Seq<char>, b: Seq<char>)
    ensures
        eq_ignore_ascii_case_seq(a, b) == eq_ignore_ascii_case_seq(b, a),
{
}

/// Two characters match up to ASCII case: they are equal, or one is an
/// ASCII capital letter and the other its small letter.
pub open spec fn same_up_to_ascii_case(x: char, y: char) -> bool {
    ||| x == y
    ||| 'A' <= x && x <= 'Z' && y as u32 == x as u32 + 32
    ||| 'A' <= y && y <= 'Z' && x as u32 == y as u32 + 32
}

/// Equality up to ASCII case compares character by character: two texts
/// match exactly when they have the same length and each pair of
/// characters is equal or is the capital and small form of one ASCII
/// letter. Every other character, digits and non-ASCII letters included,
/// must be equal.
pub proof fn lemma_eq_ignore_ascii_case_meaning(a: Seq<char>, b: Seq<char>)
    ensures
        eq_ignore_ascii_case_seq(a, b) <==> (a.len() == b.len() && forall|i: int|
            0 <= i < a.len() ==> same_up_to_ascii_case(#[trigger] a[i], b[i])),
{
    assert forall|x: char, y: char| #[trigger] ascii_lower_code(x) == #[trigger] ascii_lower_code(y) <==> same_up_to_ascii_case(x, y) by {
        lemma_lower_code_match(x, y);
    }
    if a.len() == b.len() {
        if eq_ignore_ascii_case_seq(a, b) {
            assert forall|i: int| 0 <= i < a.len() implies same_up_to_ascii_case(#[trigger] a[i], b[i]) by {
                assert(ascii_lower_code(a[i]) == ascii_lower_code(b[i]));
            }
        }
        if forall|i: int| 0 <= i < a.len() ==> same_up_to_ascii_case(#[trigger] a[i], b[i]) {
            assert forall|i: int| 0 <= i < a.len() implies ascii_lower_code(#[trigger] a[i]) == ascii_lower_code(b[i]) by {
                assert(same_up_to_ascii_case(a[i], b[i]));
            }
        }
    }
}

proof fn lemma_lower_code_match(x: char, y: char)
    ensures
        ascii_lower_code(x) == ascii_lower_code(y) <==> same_up_to_ascii_case(x, y),
{
    if x as u32 == y as u32 {
        assert(x == y);
    }
}

/// The Unicode `White_Space` property.
pub open spec fn is_white_space(c: char) -> bool {
    let u = c as u32;
    ||| 0x9 <= u && u <= 0xD
    ||| u == 0x20
    ||| u == 0x85
    ||| u == 0xA0
    ||| u == 0x1680
    ||| 0x2000 <= u && u <= 0x200A
    ||| u == 0x2028
    ||| u == 0x2029
    ||| u == 0x202F
    ||| u == 0x205F
    ||| u == 0x3000
}

/// `char::is_whitespace`: true exactly for the characters with the
/// Unicode `White_Space` property.
pub fn char_is_whitespace(c: char) -> (b: bool)
    ensures
        b == is_white_space(c),
{
    let u = c as u32;
    (0x9 <= u && u <= 0xD) || u == 0x20 || u == 0x85 || u == 0xA0 || u == 0x1680 || (0x2000 <= u
        && u <= 0x200A) || u == 0x2028 || u == 0x2029 || u == 0x202F || u == 0x205F || u == 0x3000
}

/// Words finished so far and the word being read, after scanning `s`.
pub open spec fn ws_scan(s: Seq<char>) -> (Seq<Seq<char>>, Seq<char>)
    decreases s.len(),
{
    if s.len() == 0 {
        (seq![], seq![])
    } else {
        let (done, cur) = ws_scan(s.drop_last());
        let c = s.last();
        if is_white_space(c) {
            if cur.len() > 0 {
                (done.push(cur), seq![])
            } else {
                (done, cur)
            }
        } else {
            (done, cur.push(c))
        }
    }
}

/// The maximal runs of non-white-space characters of `s`, in order.
pub open spec fn split_ws_seq(s: Seq<char>) -> Seq<Seq<char>> {
    let (done, cur) = ws_scan(s);
    if cur.len() > 0 {
        done.push(cur)
    } else {
        done
    }
}

/// The views of a sequence of strings.
pub open spec fn views(ws: Seq<String>) -> Seq<Seq<char>> {
    ws.map_values(|w: String| w@)
}

/// `str::split_whitespace`, collected.
pub fn split_whitespace(s: &str) -> (r: Vec<String>)
    ensures
        views(r@) == split_ws_seq(s@),
{
    let sv = chars_of(s);
    let mut words: Vec<String> = Vec::new();
    let mut cur: Vec<char> = Vec::new();
    let mut i: usize = 0;
    assert(sv@.take(0) =~= Seq::<char>::empty());
    while i < sv.len()
        invariant
            sv@ == s@,
            i <= sv.len(),
            (views(words@), cur@) == ws_scan(sv@.take(i as int)),
        decreases sv.len() - i,
    {
        let c = sv[i];
        assert(sv@.take(i + 1).drop_last() =~= sv@.take(i as int));
        if char_is_whitespace(c) {
            if cur.len() > 0 {
                let w = string_from_chars(cur.as_slice());
                words.push(w);
                cur = Vec::new();
                assert(views(words@) =~= ws_scan(sv@.take(i as int)).0.push(w@));
            }
        } else {
            cur.push(c);
        }
        i += 1;
    }
    assert(sv@.take(i as int) =~= sv@);
    if cur.len() > 0 {
        let w = string_from_chars(cur.as_slice());
        words.push(w);
        assert(views(words@) =~= ws_scan(sv@).0.push(w@));
    }
    words
}

/// Words joined by single spaces.
pub open spec fn join_space(ws: Seq<Seq<char>>) -> Seq<char>
    decreases ws.len(),
{
    if ws.len() == 0 {
        seq![]
    } else if ws.len() == 1 {
        ws[0]
    } else {
        join_space(ws.drop_last()) + seq![' '] + ws.last()
    }
}

/// Joins `words[start..end]` with single spaces (`[&str]::join(" ")`).
pub fn join_words(words: &Vec<String>, start: usize, end: usize) -> (r: String)
    requires
        start <= end <= words.len(),
    ensures
        r@ == join_space(views(words@).subrange(start as int, end as int)),
{
    let mut out: Vec<char> = Vec::new();
    let mut k: usize = start;
    assert(views(words@).subrange(start as int, start as int) =~= Seq::<Seq<char>>::empty());
    while k < end
        invariant
            start <= k <= end <= words.len(),
            out@ == join_space(views(words@).subrange(start as int, k as int)),
        decreases end - k,
    {
        let wv = chars_of(words[k].as_str());
        let ghost prev = views(words@).subrange(start as int, k as int);
        let ghost next = views(words@).subrange(start as int, k + 1);
        assert(next.drop_last() =~= prev);
        assert(next.last() == words@[k as int]@);
        if k > start {
            out.push(' ');
        }
        push_all(&mut out, &wv);
        proof {
            if k == start {
                assert(out@ =~= next[0]);
            } else {
                assert(out@ =~= prev_join_plus(prev, next.last()));
            }
        }
        k += 1;
    }
    string_from_chars(out.as_slice())
}

spec fn prev_join_plus(prev: Seq<Seq<char>>, last: Seq<char>) -> Seq<char> {
    join_space(prev) + seq![' '] + last
}

/// Unicode lower-casing as std `str::to_lowercase` computes it.
pub uninterp spec fn lowercase(s: Seq<char>) -> Seq<char>;

/// std `str::to_lowercase`; its result is named by `lowercase`.
#[verifier::external_body]
pub(crate) fn to_lowercase(s: &str) -> (r: String)
    ensures
        r@ == lowercase(s@),
{
    s.to_lowercase()
}

proof fn lemma_boundary_in_prefix(bytes: Seq<u8>, s: int, e: int)
    requires
        valid_utf8(bytes),
        0 <= s <= e <= bytes.len(),
        is_char_boundary(bytes, s),
        is_char_boundary(bytes, e),
    ensures
        valid_utf8(bytes.subrange(0, e)),
        is_char_boundary(bytes.subrange(0, e), s),
{
    valid_utf8_split(bytes, e);
    let p = bytes.subrange(0, e);
    if s == e {
        is_char_boundary_start_end_of_seq(p);
    } else if s > 0 {
        is_char_boundary_iff_not_is_continuation_byte(bytes, s);
        is_char_boundary_iff_not_is_continuation_byte(p, s);
    }
}

/// The characters encoded by bytes `start..end` of `s`.
pub open spec fn byte_range_text(s: Seq<char>, start: int, end: int) -> Seq<char> {
    decode_utf8(encode_utf8(s).subrange(start, end))
}

/// Byte-offset slicing `&s[start..end]` at character boundaries.
pub fn byte_slice(s: &str, start: usize, end: usize) -> (r: &str)
    requires
        start <= end <= s.spec_bytes().len(),
        is_char_boundary(s.spec_bytes(), start as int),
        is_char_boundary(s.spec_bytes(), end as int),
    ensures
        r.spec_bytes() == s.spec_bytes().subrange(start as int, end as int),
        r@ == byte_range_text(s@, start as int, end as int),
{
    broadcast use encode_utf8_valid_utf8, encode_utf8_decode_utf8;
    proof {
        lemma_boundary_in_prefix(s.spec_bytes(), start as int, end as int);
    }
    let (a, _) = s.split_at(end);
    let (_, b) = a.split_at(start);
    assert(b.spec_bytes() =~= s.spec_bytes().subrange(start as int, end as int));
    assert(decode_utf8(encode_utf8(b@)) == b@);
    b
}

/// Equality of two string slices.
pub fn str_eq(a: &str, b: &str) -> (r: bool)
    ensures
        r == (a@ == b@),
{
    let av = chars_of(a);
    let bv = chars_of(b);
    if av.len() != bv.len() {
        return false;
    }
    let mut i: usize = 0;
    while i < av.len()
        invariant
            av@ == a@,
            bv@ == b@,
            av.len() == bv.len(),
            i <= av.len(),
            forall|j: int| 0 <= j < i ==> av@[j] == bv@[j],
        decreases av.len() - i,
    {
        if av[i] != bv[i] {
            return false;
        }
        i += 1;
    }
    assert(av@ =~= bv@);
    true
}

/// The text contains the character `c`.
pub open spec fn has_char_seq(s: Seq<char>, c: char) -> bool {
    exists|i: int| 0 <= i < s.len() && s[i] == c
}

/// `str::contains` with a character pattern.
pub fn contains_char(s: &str, c: char) -> (r: bool)
    ensures
        r == has_char_seq(s@, c),
{
    let sv = chars_of(s);
    let mut i: usize = 0;
    while i < sv.len()
        invariant
            sv@ == s@,
            i <= sv.len(),
            forall|j: int| 0 <= j < i ==> sv@[j] != c,
        decreases sv.len() - i,
    {
        if sv[i] == c {
            return true;
        }
        i += 1;
    }
    false
}

} // verus!
