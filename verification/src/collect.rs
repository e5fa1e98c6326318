//! Extraction of indicators (e-mail addresses, IPv4 addresses, domains,
//! phone numbers and handles) from free text with regular expressions.

use vstd::prelude::*;
use vstd::utf8::*;
use vstd::string::StringSliceAdditionalSpecFns;
use crate::entity::{
    Entity, Property, PropertyValue, PropertyValueView, has_key, props_view, set_property,
};
use crate::ids::is_uuid_v4;
use crate::text::{byte_range_text, byte_slice, chars_of, contains_char, has_char_seq};

verus! {

#[verifier::external_type_specification]
#[verifier::external_body]
pub struct ExRegex(regex::Regex);

#[verifier::external_type_specification]
#[verifier::external_body]
pub struct ExRegexError(regex::Error);

/// Whether `regex::Regex::new` accepts the pattern.
pub uninterp spec fn regex_compiles(pattern: Seq<char>) -> bool;

/// The byte spans `(start, end)` of the successive non-overlapping matches
/// that `regex::Regex::find_iter` yields for the pattern on the haystack.
pub uninterp spec fn regex_match_spans(pattern: Seq<char>, haystack: Seq<char>) -> Seq<(usize, usize)>;

/// What `regex::Regex::is_match` answers for the pattern on the haystack.
pub uninterp spec fn regex_is_match(pattern: Seq<char>, haystack: Seq<char>) -> bool;

/// Match spans as `regex` documents them: each starts no later than it
/// ends, lies within the haystack, starts and ends on character
/// boundaries, and each ends no later than the next one starts.
pub open spec fn spans_valid(spans: Seq<(usize, usize)>, bytes: Seq<u8>) -> bool {
    &&& forall|i: int|
        0 <= i < spans.len() ==> {
            &&& (#[trigger] spans[i]).0 <= spans[i].1
            &&& spans[i].1 <= bytes.len()
            &&& is_char_boundary(bytes, spans[i].0 as int)
            &&& is_char_boundary(bytes, spans[i].1 as int)
        }
    &&& forall|i: int, j: int| 0 <= i < j < spans.len() ==> (#[trigger] spans[i]).1 <= (#[trigger] spans[j]).0
}

/// `regex::Regex::new`: succeeds exactly on the patterns that compile.
#[verifier::external_body]
fn regex_new(pattern: &str) -> (r: Result<regex::Regex, regex::Error>)
    ensures
        r is Ok <==> regex_compiles(pattern@),
{
    regex::Regex::new(pattern)
}

/// A compiled regular expression together with the pattern it was
/// compiled from. Only `Pattern::new` builds one, so the compiled form
/// always belongs to `source`.
pub struct Pattern {
    re: regex::Regex,
    source: String,
}

impl Pattern {
    /// The pattern text.
    pub closed spec fn source(&self) -> Seq<char> {
        self.source@
    }

    /// Compiles a pattern; `None` when `regex` rejects it.
    pub fn new(pattern: &str) -> (r: Option<Pattern>)
        ensures
            r is Some <==> regex_compiles(pattern@),
            r matches Some(p) ==> p.source() == pattern@,
    {
        match regex_new(pattern) {
            Ok(re) => Some(Pattern { re, source: pattern.to_owned() }),
            Err(_) => None,
        }
    }

    /// `regex::Regex::find_iter`, each match taken as its byte span.
    #[verifier::external_body]
    pub(crate) fn find_spans(&self, haystack: &str) -> (r: Vec<(usize, usize)>)
        ensures
            r@ == regex_match_spans(self.source(), haystack@),
            spans_valid(r@, haystack.spec_bytes()),
    {
        self.re.find_iter(haystack).map(|m| (m.start(), m.end())).collect()
    }

    /// `regex::Regex::is_match`.
    #[verifier::external_body]
    pub(crate) fn is_match(&self, haystack: &str) -> (r: bool)
        ensures
            r == regex_is_match(self.source(), haystack@),
    {
        self.re.is_match(haystack)
    }
}

pub const EMAIL_PATTERN: &'static str = r"[a-zA-Z0-9._%+-]+@[a-zA-Z0-9.-]+\.[a-zA-Z]{2,}";

pub const IPV4_PATTERN: &'static str = r"\b(?:[0-9]{1,3}\.){3}[0-9]{1,3}\b";

pub const DOMAIN_PATTERN: &'static str = r"\b(?:[a-zA-Z0-9](?:[a-zA-Z0-9-]{0,61}[a-zA-Z0-9])?\.)+[a-zA-Z]{2,}\b";

pub const PHONE_PATTERN: &'static str = r"\+?[1-9]\d{1,14}(?:[-\s]?\d{2,4}){2,4}";

pub const HANDLE_PATTERN: &'static str = r"@[a-zA-Z0-9_]{3,32}";

pub const SOURCE_TEXT_KEY: &'static str = "source_text";

pub const EMAIL_KIND: &'static str = "Email";

pub const IPV4_KIND: &'static str = "IPv4";

pub const DOMAIN_KIND: &'static str = "Domain";

pub const PHONE_KIND: &'static str = "Phone";

pub const HANDLE_KIND: &'static str = "Handle";

/// Why extraction stopped.
#[derive(Debug, PartialEq, Eq, Structural)]
pub enum CollectError {
    /// One of the patterns did not compile.
    InvalidPattern,
    /// The context of an e-mail match (up to 20 bytes before it) would
    /// start inside a multi-byte character.
    ContextNotAtCharBoundary,
}

// ---------------------------------------------------------------------
// Decimal octets

/// An ASCII decimal digit.
pub open spec fn is_digit(c: char) -> bool {
    '0' <= c && c <= '9'
}

/// The value of a string of decimal digits.
pub open spec fn decimal_value(d: Seq<char>) -> nat
    decreases d.len(),
{
    if d.len() == 0 {
        0
    } else {
        decimal_value(d.drop_last()) * 10 + ((d.last() as u32) - ('0' as u32)) as nat
    }
}

/// Whether `<u8 as FromStr>::from_str` accepts the text: an optional `+`,
/// then at least one decimal digit, of value at most 255.
pub open spec fn parses_as_u8(s: Seq<char>) -> bool {
    small_decimal(if s.len() > 0 && s[0] == '+' { s.drop_first() } else { s })
}

proof fn lemma_decimal_value_grows(d: Seq<char>, k: int, m: int)
    requires
        0 <= k <= m <= d.len(),
        forall|i: int| 0 <= i < d.len() ==> is_digit(#[trigger] d[i]),
    ensures
        decimal_value(d.take(k)) <= decimal_value(d.take(m)),
    decreases m - k,
{
    if k < m {
        lemma_decimal_value_grows(d, k, m - 1);
        assert(d.take(m).drop_last() =~= d.take(m - 1));
        assert(is_digit(d[m - 1]));
    }
}

/// At least one decimal digit, of value at most 255.
pub open spec fn small_decimal(d: Seq<char>) -> bool {
    &&& d.len() > 0
    &&& forall|i: int| 0 <= i < d.len() ==> is_digit(#[trigger] d[i])
    &&& decimal_value(d) <= 255
}

fn small_decimal_exec(d: &Vec<char>) -> (r: bool)
    ensures
        r == small_decimal(d@),
{
    if d.len() == 0 {
        return false;
    }
    let mut k: usize = 0;
    while k < d.len()
        invariant
            k <= d.len(),
            forall|i: int| 0 <= i < k ==> is_digit(#[trigger] d@[i]),
        decreases d.len() - k,
    {
        if !('0' <= d[k] && d[k] <= '9') {
            return false;
        }
        k += 1;
    }
    let mut value: u32 = 0;
    let mut j: usize = 0;
    assert(d@.take(0) =~= Seq::<char>::empty());
    while j < d.len()
        invariant
            j <= d.len(),
            forall|i: int| 0 <= i < d.len() ==> is_digit(#[trigger] d@[i]),
            value == decimal_value(d@.take(j as int)),
            value <= 255,
        decreases d.len() - j,
    {
        assert(is_digit(d@[j as int]));
        assert(d@.take(j + 1).drop_last() =~= d@.take(j as int));
        let digit: u32 = (d[j] as u32) - ('0' as u32);
        value = value * 10 + digit;
        j += 1;
        if value > 255 {
            proof {
                lemma_decimal_value_grows(d@, j as int, d@.len() as int);
                assert(d@.take(d@.len() as int) =~= d@);
            }
            return false;
        }
    }
    assert(d@.take(j as int) =~= d@);
    true
}

/// `s.parse::<u8>().is_ok()`.
pub fn parses_as_u8_exec(s: &Vec<char>) -> (r: bool)
    ensures
        r == parses_as_u8(s@),
{
    let start: usize = if s.len() > 0 && s[0] == '+' { 1 } else { 0 };
    let mut d: Vec<char> = Vec::new();
    let mut k: usize = start;
    while k < s.len()
        invariant
            start <= k <= s.len(),
            start <= 1,
            d@ == s@.subrange(start as int, k as int),
        decreases s.len() - k,
    {
        d.push(s[k]);
        assert(d@ =~= s@.subrange(start as int, k + 1));
        k += 1;
    }
    proof {
        if s@.len() > 0 && s@[0] == '+' {
            assert(d@ =~= s@.drop_first());
        } else {
            assert(d@ =~= s@);
        }
    }
    small_decimal_exec(&d)
}

/// The state of splitting at `.`: pieces finished so far and the piece
/// being read.
pub open spec fn dot_scan(s: Seq<char>) -> (Seq<Seq<char>>, Seq<char>)
    decreases s.len(),
{
    if s.len() == 0 {
        (seq![], seq![])
    } else {
        let (done, cur) = dot_scan(s.drop_last());
        if s.last() == '.' {
            (done.push(cur), seq![])
        } else {
            (done, cur.push(s.last()))
        }
    }
}

/// `str::split('.')`: the pieces between dots, empty ones included.
pub open spec fn dot_pieces(s: Seq<char>) -> Seq<Seq<char>> {
    dot_scan(s).0.push(dot_scan(s).1)
}

/// Every dot-separated piece parses as a `u8`.
pub open spec fn octets_ok(s: Seq<char>) -> bool {
    forall|i: int| 0 <= i < dot_pieces(s).len() ==> parses_as_u8(#[trigger] dot_pieces(s)[i])
}

/// `s.split('.').all(|o| o.parse::<u8>().is_ok())`.
pub fn octets_ok_exec(s: &str) -> (r: bool)
    ensures
        r == octets_ok(s@),
{
    let sv = chars_of(s);
    let mut cur: Vec<char> = Vec::new();
    let mut i: usize = 0;
    let ghost mut done: Seq<Seq<char>> = seq![];
    assert(sv@.take(0) =~= Seq::<char>::empty());
    while i < sv.len()
        invariant
            sv@ == s@,
            i <= sv.len(),
            dot_scan(sv@.take(i as int)) == (done, cur@),
            forall|j: int| 0 <= j < done.len() ==> parses_as_u8(#[trigger] done[j]),
        decreases sv.len() - i,
    {
        assert(sv@.take(i + 1).drop_last() =~= sv@.take(i as int));
        if sv[i] == '.' {
            if !parses_as_u8_exec(&cur) {
                proof {
                    let t = sv@.take(i + 1);
                    assert(dot_scan(t).0 == done.push(cur@));
                    lemma_dot_scan_prefix(sv@, i + 1, sv@.len() as int);
                    assert(sv@.take(sv@.len() as int) =~= sv@);
                    let k = done.len() as int;
                    assert(dot_pieces(sv@)[k] == cur@);
                }
                return false;
            }
            proof {
                done = done.push(cur@);
            }
            cur = Vec::new();
        } else {
            cur.push(sv[i]);
        }
        i += 1;
    }
    assert(sv@.take(i as int) =~= sv@);
    let last_ok = parses_as_u8_exec(&cur);
    proof {
        let ps = dot_pieces(sv@);
        assert(ps == done.push(cur@));
        if last_ok {
            assert forall|j: int| 0 <= j < ps.len() implies parses_as_u8(#[trigger] ps[j]) by {
                if j < done.len() {
                    assert(ps[j] == done[j]);
                }
            }
        } else {
            assert(ps[done.len() as int] == cur@);
        }
    }
    last_ok
}

/// Finished pieces of a prefix remain finished pieces of the whole.
proof fn lemma_dot_scan_prefix(s: Seq<char>, k: int, m: int)
    requires
        0 <= k <= m <= s.len(),
    ensures
        dot_scan(s.take(k)).0.len() <= dot_scan(s.take(m)).0.len(),
        forall|j: int|
            0 <= j < dot_scan(s.take(k)).0.len() ==> #[trigger] dot_scan(s.take(m)).0[j]
                == dot_scan(s.take(k)).0[j],
    decreases m - k,
{
    if k < m {
        lemma_dot_scan_prefix(s, k, m - 1);
        assert(s.take(m).drop_last() =~= s.take(m - 1));
    }
}

// ---------------------------------------------------------------------
// Findings

/// What an extracted entity says: its type, its label and its properties.
pub open spec fn entity_view(e: Entity) -> (Seq<char>, Seq<char>, Seq<(Seq<char>, PropertyValueView)>) {
    (e.entity_type@, e.label@, props_view(e.properties@))
}

/// The views of a list of entities.
pub open spec fn entities_view(es: Seq<Entity>) -> Seq<(Seq<char>, Seq<char>, Seq<(Seq<char>, PropertyValueView)>)> {
    es.map_values(|e: Entity| entity_view(e))
}

/// Every entity is freshly made: distinct property keys, a UUID id, and
/// equal creation and update times.
pub open spec fn all_fresh(es: Seq<Entity>) -> bool {
    forall|i: int|
        0 <= i < es.len() ==> {
            &&& (#[trigger] es[i]).wf()
            &&& is_uuid_v4(es[i].id@)
            &&& es[i].created_at@ == es[i].updated_at@
        }
}

/// An entity of the given type and label whose one property
/// `source_text` holds `source`.
pub open spec fn finding(kind: Seq<char>, label: Seq<char>, source: Seq<char>) -> (Seq<char>, Seq<char>, Seq<(Seq<char>, PropertyValueView)>) {
    (kind, label, seq![(SOURCE_TEXT_KEY@, PropertyValueView::Text(source))])
}

/// The text of a match span.
pub open spec fn span_text(text: Seq<char>, span: (usize, usize)) -> Seq<char> {
    byte_range_text(text, span.0 as int, span.1 as int)
}

/// Where the context of an e-mail match starts: 20 bytes before the
/// match, or at the start of the text.
pub open spec fn context_start(span: (usize, usize)) -> int {
    if span.0 >= 20 { span.0 - 20 } else { 0 }
}

/// Every e-mail context starts on a character boundary.
pub open spec fn contexts_ok(bytes: Seq<u8>, spans: Seq<(usize, usize)>) -> bool {
    forall|i: int| 0 <= i < spans.len() ==> is_char_boundary(bytes, context_start(#[trigger] spans[i]))
}

/// One e-mail entity per match, with its context as source text.
pub open spec fn email_findings(text: Seq<char>, spans: Seq<(usize, usize)>) -> Seq<(Seq<char>, Seq<char>, Seq<(Seq<char>, PropertyValueView)>)> {
    Seq::new(
        spans.len(),
        |i: int|
            finding(
                EMAIL_KIND@,
                span_text(text, spans[i]),
                byte_range_text(text, context_start(spans[i]), spans[i].1 as int),
            ),
    )
}

/// One IPv4 entity per match whose four parts are numbers up to 255.
pub open spec fn ipv4_findings(text: Seq<char>, spans: Seq<(usize, usize)>) -> Seq<(Seq<char>, Seq<char>, Seq<(Seq<char>, PropertyValueView)>)>
    decreases spans.len(),
{
    if spans.len() == 0 {
        seq![]
    } else {
        let pre = ipv4_findings(text, spans.drop_last());
        let t = span_text(text, spans.last());
        if octets_ok(t) {
            pre.push(finding(IPV4_KIND@, t, t))
        } else {
            pre
        }
    }
}

/// One domain entity per match that holds no `@` and that the IPv4
/// pattern does not match (`ip_flags[i]` tells whether it matches
/// match `i`).
pub open spec fn domain_findings(text: Seq<char>, spans: Seq<(usize, usize)>, ip_flags: Seq<bool>) -> Seq<(Seq<char>, Seq<char>, Seq<(Seq<char>, PropertyValueView)>)>
    decreases spans.len(),
{
    if spans.len() == 0 {
        seq![]
    } else {
        let k = spans.len() - 1;
        let pre = domain_findings(text, spans.drop_last(), ip_flags);
        let t = span_text(text, spans[k]);
        if !has_char_seq(t, '@') && !ip_flags[k] {
            pre.push(finding(DOMAIN_KIND@, t, t))
        } else {
            pre
        }
    }
}

/// One entity of the given type per match, with the match as source text.
pub open spec fn plain_findings(kind: Seq<char>, text: Seq<char>, spans: Seq<(usize, usize)>) -> Seq<(Seq<char>, Seq<char>, Seq<(Seq<char>, PropertyValueView)>)> {
    Seq::new(spans.len(), |i: int| finding(kind, span_text(text, spans[i]), span_text(text, spans[i])))
}

/// All findings, kind by kind: e-mails, IPv4 addresses, domains, phone
/// numbers, handles.
pub open spec fn text_findings(
    text: Seq<char>,
    emails: Seq<(usize, usize)>,
    ips: Seq<(usize, usize)>,
    domains: Seq<(usize, usize)>,
    ip_flags: Seq<bool>,
    phones: Seq<(usize, usize)>,
    handles: Seq<(usize, usize)>,
) -> Seq<(Seq<char>, Seq<char>, Seq<(Seq<char>, PropertyValueView)>)> {
    email_findings(text, emails) + ipv4_findings(text, ips) + domain_findings(text, domains, ip_flags)
        + plain_findings(PHONE_KIND@, text, phones) + plain_findings(HANDLE_KIND@, text, handles)
}

/// In every IPv4 finding each dot-separated part of the label is a number
/// up to 255, and the label is also the source text.
pub proof fn lemma_ipv4_findings_valid(text: Seq<char>, spans: Seq<(usize, usize)>)
    ensures
        forall|k: int|
            0 <= k < ipv4_findings(text, spans).len() ==> {
                let f = #[trigger] ipv4_findings(text, spans)[k];
                &&& f.0 == IPV4_KIND@
                &&& octets_ok(f.1)
                &&& f.2 == seq![(SOURCE_TEXT_KEY@, PropertyValueView::Text(f.1))]
            },
    decreases spans.len(),
{
    if spans.len() > 0 {
        lemma_ipv4_findings_valid(text, spans.drop_last());
        let cur = ipv4_findings(text, spans);
        let prev = ipv4_findings(text, spans.drop_last());
        assert forall|k: int| 0 <= k < cur.len() implies {
            let f = #[trigger] cur[k];
            &&& f.0 == IPV4_KIND@
            &&& octets_ok(f.1)
            &&& f.2 == seq![(SOURCE_TEXT_KEY@, PropertyValueView::Text(f.1))]
        } by {
            if k < prev.len() {
                assert(cur[k] == prev[k]);
            }
        }
    }
}

/// No domain finding contains `@`, and none is a text that the IPv4
/// pattern matches.
pub proof fn lemma_domain_findings_valid(text: Seq<char>, spans: Seq<(usize, usize)>, ip_flags: Seq<bool>)
    ensures
        forall|k: int|
            0 <= k < domain_findings(text, spans, ip_flags).len() ==> {
                let f = #[trigger] domain_findings(text, spans, ip_flags)[k];
                &&& f.0 == DOMAIN_KIND@
                &&& !has_char_seq(f.1, '@')
                &&& exists|i: int|
                    0 <= i < spans.len() && !ip_flags[i] && span_text(text, #[trigger] spans[i]) == f.1
            },
    decreases spans.len(),
{
    if spans.len() > 0 {
        let pre = spans.drop_last();
        lemma_domain_findings_valid(text, pre, ip_flags);
        let cur = domain_findings(text, spans, ip_flags);
        let prev = domain_findings(text, pre, ip_flags);
        assert forall|k: int| 0 <= k < cur.len() implies {
            let f = #[trigger] cur[k];
            &&& f.0 == DOMAIN_KIND@
            &&& !has_char_seq(f.1, '@')
            &&& exists|i: int|
                0 <= i < spans.len() && !ip_flags[i] && span_text(text, #[trigger] spans[i]) == f.1
        } by {
            if k < prev.len() {
                assert(cur[k] == prev[k]);
                let i = choose|i: int|
                    0 <= i < pre.len() && !ip_flags[i] && span_text(text, #[trigger] pre[i]) == prev[k].1;
                assert(spans[i] == pre[i]);
            } else {
                let j = spans.len() - 1;
                assert(span_text(text, spans[j]) == cur[k].1);
            }
        }
    }
}

/// Every domain match whose text holds no `@` and that the IPv4 pattern
/// does not match (`ip_flags[i]` false) gives a domain finding: its text is
/// the label and the source text.
pub proof fn lemma_domain_findings_complete(text: Seq<char>, spans: Seq<(usize, usize)>, ip_flags: Seq<bool>)
    ensures
        forall|i: int|
            0 <= i < spans.len() && !ip_flags[i] && !has_char_seq(span_text(text, spans[i]), '@')
                ==> exists|k: int|
                0 <= k < domain_findings(text, spans, ip_flags).len() && {
                    let f = #[trigger] domain_findings(text, spans, ip_flags)[k];
                    &&& f.0 == DOMAIN_KIND@
                    &&& f.1 == span_text(text, #[trigger] spans[i])
                    &&& f.2 == seq![(SOURCE_TEXT_KEY@, PropertyValueView::Text(f.1))]
                },
    decreases spans.len(),
{
    if spans.len() > 0 {
        let pre = spans.drop_last();
        lemma_domain_findings_complete(text, pre, ip_flags);
        let cur = domain_findings(text, spans, ip_flags);
        let prev = domain_findings(text, pre, ip_flags);
        let n = spans.len() - 1;
        assert forall|i: int|
            0 <= i < spans.len() && !ip_flags[i] && !has_char_seq(span_text(text, spans[i]), '@')
            implies exists|k: int|
            0 <= k < cur.len() && {
                let f = #[trigger] cur[k];
                &&& f.0 == DOMAIN_KIND@
                &&& f.1 == span_text(text, #[trigger] spans[i])
                &&& f.2 == seq![(SOURCE_TEXT_KEY@, PropertyValueView::Text(f.1))]
            } by {
            if i < n {
                assert(spans[i] == pre[i]);
                let k = choose|k: int|
                    0 <= k < prev.len() && {
                        let f = #[trigger] prev[k];
                        &&& f.0 == DOMAIN_KIND@
                        &&& f.1 == span_text(text, #[trigger] pre[i])
                        &&& f.2 == seq![(SOURCE_TEXT_KEY@, PropertyValueView::Text(f.1))]
                    };
                assert(cur[k] == prev[k]);
            } else {
                assert(!has_char_seq(span_text(text, spans[n]), '@'));
                assert(cur[prev.len() as int].1 == span_text(text, spans[i]));
            }
        }
    }
}

/// Every IPv4 match whose dot-separated parts are all numbers up to 255
/// gives an IPv4 finding: its text is the label and the source text.
pub proof fn lemma_ipv4_findings_complete(text: Seq<char>, spans: Seq<(usize, usize)>)
    ensures
        forall|i: int|
            0 <= i < spans.len() && octets_ok(span_text(text, spans[i])) ==> exists|k: int|
                0 <= k < ipv4_findings(text, spans).len() && {
                    let f = #[trigger] ipv4_findings(text, spans)[k];
                    &&& f.0 == IPV4_KIND@
                    &&& f.1 == span_text(text, #[trigger] spans[i])
                    &&& f.2 == seq![(SOURCE_TEXT_KEY@, PropertyValueView::Text(f.1))]
                },
    decreases spans.len(),
{
    if spans.len() > 0 {
        let pre = spans.drop_last();
        lemma_ipv4_findings_complete(text, pre);
        let cur = ipv4_findings(text, spans);
        let prev = ipv4_findings(text, pre);
        let n = spans.len() - 1;
        assert forall|i: int| 0 <= i < spans.len() && octets_ok(span_text(text, spans[i])) implies exists|k: int|
            0 <= k < cur.len() && {
                let f = #[trigger] cur[k];
                &&& f.0 == IPV4_KIND@
                &&& f.1 == span_text(text, #[trigger] spans[i])
                &&& f.2 == seq![(SOURCE_TEXT_KEY@, PropertyValueView::Text(f.1))]
            } by {
            if i < n {
                assert(spans[i] == pre[i]);
                let k = choose|k: int|
                    0 <= k < prev.len() && {
                        let f = #[trigger] prev[k];
                        &&& f.0 == IPV4_KIND@
                        &&& f.1 == span_text(text, #[trigger] pre[i])
                        &&& f.2 == seq![(SOURCE_TEXT_KEY@, PropertyValueView::Text(f.1))]
                    };
                assert(cur[k] == prev[k]);
            } else {
                assert(cur[prev.len() as int].1 == span_text(text, spans[i]));
            }
        }
    }
}

/// A fresh entity of the given type and label with `source_text` set.
fn make_finding(kind: &str, label: &str, source: &str) -> (e: Entity)
    ensures
        entity_view(e) == finding(kind@, label@, source@),
        e.wf(),
        is_uuid_v4(e.id@),
        e.created_at@ == e.updated_at@,
{
    let mut e = Entity::new(kind, label);
    set_property(&mut e.properties, SOURCE_TEXT_KEY.to_owned(), PropertyValue::Text(source.to_owned()));
    proof {
        let pv = props_view(e.properties@);
        assert(!has_key(props_view(Seq::<Property>::empty()), SOURCE_TEXT_KEY@));
        assert(pv =~= seq![(SOURCE_TEXT_KEY@, PropertyValueView::Text(source@))]);
    }
    e
}

proof fn lemma_push_view(es: Seq<Entity>, e: Entity)
    ensures
        entities_view(es.push(e)) == entities_view(es).push(entity_view(e)),
{
    assert(entities_view(es.push(e)) =~= entities_view(es).push(entity_view(e)));
}

/// Whether every e-mail context starts on a character boundary.
pub fn contexts_on_boundaries(text: &str, spans: &Vec<(usize, usize)>) -> (ok: bool)
    ensures
        ok == contexts_ok(text.spec_bytes(), spans@),
{
    let mut k: usize = 0;
    while k < spans.len()
        invariant
            k <= spans.len(),
            forall|i: int| 0 <= i < k ==> is_char_boundary(text.spec_bytes(), context_start(#[trigger] spans@[i])),
        decreases spans.len() - k,
    {
        let s = spans[k].0;
        let c: usize = if s >= 20 { s - 20 } else { 0 };
        if !text.is_char_boundary(c) {
            assert(!is_char_boundary(text.spec_bytes(), context_start(spans@[k as int])));
            return false;
        }
        k += 1;
    }
    true
}

/// Appends the e-mail findings.
fn push_emails(text: &str, spans: &Vec<(usize, usize)>, out: &mut Vec<Entity>)
    requires
        spans_valid(spans@, text.spec_bytes()),
        contexts_ok(text.spec_bytes(), spans@),
        all_fresh(old(out)@),
    ensures
        entities_view(final(out)@) == entities_view(old(out)@) + email_findings(text@, spans@),
        all_fresh(final(out)@),
{
    let ghost start = entities_view(out@);
    let mut k: usize = 0;
    while k < spans.len()
        invariant
            k <= spans.len(),
            spans_valid(spans@, text.spec_bytes()),
            contexts_ok(text.spec_bytes(), spans@),
            all_fresh(out@),
            entities_view(out@) == start + email_findings(text@, spans@).take(k as int),
        decreases spans.len() - k,
    {
        let (s, t) = spans[k];
        assert(spans@[k as int] == (s, t));
        let c: usize = if s >= 20 { s - 20 } else { 0 };
        assert(is_char_boundary(text.spec_bytes(), context_start(spans@[k as int])));
        let label = byte_slice(text, s, t);
        let context = byte_slice(text, c, t);
        let e = make_finding(EMAIL_KIND, label, context);
        proof {
            lemma_push_view(out@, e);
        }
        out.push(e);
        assert(email_findings(text@, spans@).take(k + 1) =~= email_findings(text@, spans@).take(k as int).push(entity_view(e)));
        k += 1;
    }
    assert(email_findings(text@, spans@).take(k as int) =~= email_findings(text@, spans@));
}

/// Appends one entity of the given type per match.
fn push_plain(kind: &str, text: &str, spans: &Vec<(usize, usize)>, out: &mut Vec<Entity>)
    requires
        spans_valid(spans@, text.spec_bytes()),
        all_fresh(old(out)@),
    ensures
        entities_view(final(out)@) == entities_view(old(out)@) + plain_findings(kind@, text@, spans@),
        all_fresh(final(out)@),
{
    let ghost start = entities_view(out@);
    let mut k: usize = 0;
    while k < spans.len()
        invariant
            k <= spans.len(),
            spans_valid(spans@, text.spec_bytes()),
            all_fresh(out@),
            entities_view(out@) == start + plain_findings(kind@, text@, spans@).take(k as int),
        decreases spans.len() - k,
    {
        let (s, t) = spans[k];
        assert(spans@[k as int] == (s, t));
        let m = byte_slice(text, s, t);
        let e = make_finding(kind, m, m);
        proof {
            lemma_push_view(out@, e);
        }
        out.push(e);
        assert(plain_findings(kind@, text@, spans@).take(k + 1) =~= plain_findings(kind@, text@, spans@).take(k as int).push(entity_view(e)));
        k += 1;
    }
    assert(plain_findings(kind@, text@, spans@).take(k as int) =~= plain_findings(kind@, text@, spans@));
}

/// Appends the IPv4 findings.
fn push_ipv4(text: &str, spans: &Vec<(usize, usize)>, out: &mut Vec<Entity>)
    requires
        spans_valid(spans@, text.spec_bytes()),
        all_fresh(old(out)@),
    ensures
        entities_view(final(out)@) == entities_view(old(out)@) + ipv4_findings(text@, spans@),
        all_fresh(final(out)@),
{
    let ghost start = entities_view(out@);
    let mut k: usize = 0;
    assert(spans@.take(0) =~= Seq::<(usize, usize)>::empty());
    while k < spans.len()
        invariant
            k <= spans.len(),
            spans_valid(spans@, text.spec_bytes()),
            all_fresh(out@),
            entities_view(out@) == start + ipv4_findings(text@, spans@.take(k as int)),
        decreases spans.len() - k,
    {
        let (s, t) = spans[k];
        assert(spans@[k as int] == (s, t));
        assert(spans@.take(k + 1).drop_last() =~= spans@.take(k as int));
        let m = byte_slice(text, s, t);
        if octets_ok_exec(m) {
            let e = make_finding(IPV4_KIND, m, m);
            proof {
                lemma_push_view(out@, e);
            }
            out.push(e);
        }
        k += 1;
    }
    assert(spans@.take(k as int) =~= spans@);
}

/// Appends the domain findings.
fn push_domains(text: &str, spans: &Vec<(usize, usize)>, ip_flags: &Vec<bool>, out: &mut Vec<Entity>)
    requires
        spans_valid(spans@, text.spec_bytes()),
        ip_flags.len() == spans.len(),
        all_fresh(old(out)@),
    ensures
        entities_view(final(out)@) == entities_view(old(out)@) + domain_findings(text@, spans@, ip_flags@),
        all_fresh(final(out)@),
{
    let ghost start = entities_view(out@);
    let mut k: usize = 0;
    assert(spans@.take(0) =~= Seq::<(usize, usize)>::empty());
    while k < spans.len()
        invariant
            k <= spans.len(),
            ip_flags.len() == spans.len(),
            spans_valid(spans@, text.spec_bytes()),
            all_fresh(out@),
            entities_view(out@) == start + domain_findings(text@, spans@.take(k as int), ip_flags@),
        decreases spans.len() - k,
    {
        let (s, t) = spans[k];
        assert(spans@[k as int] == (s, t));
        assert(spans@.take(k + 1).drop_last() =~= spans@.take(k as int));
        assert(spans@.take(k + 1)[k as int] == spans@[k as int]);
        let m = byte_slice(text, s, t);
        if !contains_char(m, '@') && !ip_flags[k] {
            let e = make_finding(DOMAIN_KIND, m, m);
            proof {
                lemma_push_view(out@, e);
            }
            out.push(e);
        }
        k += 1;
    }
    assert(spans@.take(k as int) =~= spans@);
}

/// Builds the entities of a text from the matches of the five patterns:
/// e-mails (with up to 20 bytes of context before each), IPv4 addresses
/// whose parts are numbers up to 255, domains that hold no `@` and that
/// the IPv4 pattern does not match (`domain_ip_flags`), phone numbers and
/// handles, in that order. Every e-mail context must start on a character
/// boundary.
pub fn entities_from_matches(
    text: &str,
    emails: &Vec<(usize, usize)>,
    ips: &Vec<(usize, usize)>,
    domains: &Vec<(usize, usize)>,
    domain_ip_flags: &Vec<bool>,
    phones: &Vec<(usize, usize)>,
    handles: &Vec<(usize, usize)>,
) -> (es: Vec<Entity>)
    requires
        spans_valid(emails@, text.spec_bytes()),
        spans_valid(ips@, text.spec_bytes()),
        spans_valid(domains@, text.spec_bytes()),
        spans_valid(phones@, text.spec_bytes()),
        spans_valid(handles@, text.spec_bytes()),
        domain_ip_flags.len() == domains.len(),
        contexts_ok(text.spec_bytes(), emails@),
    ensures
        entities_view(es@) == text_findings(
            text@,
            emails@,
            ips@,
            domains@,
            domain_ip_flags@,
            phones@,
            handles@,
        ),
        all_fresh(es@),
{
    let mut out: Vec<Entity> = Vec::new();
    assert(entities_view(out@) =~= seq![]);
    push_emails(text, emails, &mut out);
    push_ipv4(text, ips, &mut out);
    push_domains(text, domains, domain_ip_flags, &mut out);
    push_plain(PHONE_KIND, text, phones, &mut out);
    push_plain(HANDLE_KIND, text, handles, &mut out);
    out
}

/// For each domain match, whether the IPv4 pattern matches its text.
pub open spec fn domain_ip_flags(text: Seq<char>, domains: Seq<(usize, usize)>) -> Seq<bool> {
    Seq::new(domains.len(), |i: int| regex_is_match(IPV4_PATTERN@, span_text(text, domains[i])))
}

/// Every one of the five patterns compiles.
pub open spec fn patterns_compile() -> bool {
    &&& regex_compiles(EMAIL_PATTERN@)
    &&& regex_compiles(IPV4_PATTERN@)
    &&& regex_compiles(DOMAIN_PATTERN@)
    &&& regex_compiles(PHONE_PATTERN@)
    &&& regex_compiles(HANDLE_PATTERN@)
}

/// The findings of a text, from the matches that `regex` gives for the
/// five patterns.
pub open spec fn extracted(text: Seq<char>) -> Seq<(Seq<char>, Seq<char>, Seq<(Seq<char>, PropertyValueView)>)> {
    let domains = regex_match_spans(DOMAIN_PATTERN@, text);
    text_findings(
        text,
        regex_match_spans(EMAIL_PATTERN@, text),
        regex_match_spans(IPV4_PATTERN@, text),
        domains,
        domain_ip_flags(text, domains),
        regex_match_spans(PHONE_PATTERN@, text),
        regex_match_spans(HANDLE_PATTERN@, text),
    )
}

/// Extracts indicators from free text.
pub struct Collector;

impl Collector {
    pub fn new() -> (c: Collector) {
        Collector
    }

    /// The e-mail addresses, IPv4 addresses, domains, phone numbers and
    /// handles found in `text`, each as a fresh entity whose `source_text`
    /// property holds the match (for an e-mail, the match with up to 20
    /// bytes before it).
    pub fn extract_entities_from_text(&self, text: &str) -> (r: Result<Vec<Entity>, CollectError>)
        ensures
            !patterns_compile() ==> r == Err::<Vec<Entity>, CollectError>(CollectError::InvalidPattern),
            patterns_compile() ==> (r is Ok <==> contexts_ok(
                text.spec_bytes(),
                regex_match_spans(EMAIL_PATTERN@, text@),
            )),
            patterns_compile() && r is Err ==> r == Err::<Vec<Entity>, CollectError>(
                CollectError::ContextNotAtCharBoundary,
            ),
            r matches Ok(es) ==> entities_view(es@) == extracted(text@) && all_fresh(es@),
    {
        let email_re = match Pattern::new(EMAIL_PATTERN) {
            Some(p) => p,
            None => return Err(CollectError::InvalidPattern),
        };
        let ip_re = match Pattern::new(IPV4_PATTERN) {
            Some(p) => p,
            None => return Err(CollectError::InvalidPattern),
        };
        let domain_re = match Pattern::new(DOMAIN_PATTERN) {
            Some(p) => p,
            None => return Err(CollectError::InvalidPattern),
        };
        let phone_re = match Pattern::new(PHONE_PATTERN) {
            Some(p) => p,
            None => return Err(CollectError::InvalidPattern),
        };
        let handle_re = match Pattern::new(HANDLE_PATTERN) {
            Some(p) => p,
            None => return Err(CollectError::InvalidPattern),
        };
        let emails = email_re.find_spans(text);
        let ips = ip_re.find_spans(text);
        let domains = domain_re.find_spans(text);
        let phones = phone_re.find_spans(text);
        let handles = handle_re.find_spans(text);
        let mut flags: Vec<bool> = Vec::new();
        let mut k: usize = 0;
        while k < domains.len()
            invariant
                k <= domains.len(),
                spans_valid(domains@, text.spec_bytes()),
                ip_re.source() == IPV4_PATTERN@,
                flags@ == domain_ip_flags(text@, domains@).take(k as int),
            decreases domains.len() - k,
        {
            let (s, t) = domains[k];
            assert(domains@[k as int] == (s, t));
            let m = byte_slice(text, s, t);
            let f = ip_re.is_match(m);
            flags.push(f);
            assert(flags@ =~= domain_ip_flags(text@, domains@).take(k + 1));
            k += 1;
        }
        assert(flags@ =~= domain_ip_flags(text@, domains@));
        if !contexts_on_boundaries(text, &emails) {
            return Err(CollectError::ContextNotAtCharBoundary);
        }
        Ok(entities_from_matches(text, &emails, &ips, &domains, &flags, &phones, &handles))
    }
}

} // verus!
