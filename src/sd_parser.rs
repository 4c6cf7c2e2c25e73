use std::io::Write;
use vstd::prelude::*;

verus! {

/// The Unicode `White_Space` characters, which is what `char::is_whitespace` tests.
pub open spec fn is_ws(c: char) -> bool {
    c == '\t' || c == '\n' || c == '\u{0B}' || c == '\u{0C}' || c == '\r' || c == ' '
        || c == '\u{85}' || c == '\u{A0}' || c == '\u{1680}' || ('\u{2000}' <= c && c
        <= '\u{200A}') || c == '\u{2028}' || c == '\u{2029}' || c == '\u{202F}' || c
        == '\u{205F}' || c == '\u{3000}'
}

/// First index at or after `i` whose character is not whitespace.
pub open spec fn lead_end(t: Seq<char>, i: int) -> int
    decreases t.len() - i,
{
    if 0 <= i < t.len() && is_ws(t[i]) {
        lead_end(t, i + 1)
    } else {
        i
    }
}

/// Going down from `j`, the end of the text once trailing whitespace above `lo` is dropped.
pub open spec fn trail_end(t: Seq<char>, lo: int, j: int) -> int
    decreases j - lo,
{
    if lo < j && j <= t.len() && is_ws(t[j - 1]) {
        trail_end(t, lo, j - 1)
    } else {
        j
    }
}

/// The text without leading and trailing whitespace.
pub open spec fn trim_spec(t: Seq<char>) -> Seq<char> {
    let a = lead_end(t, 0);
    t.subrange(a, trail_end(t, a, t.len() as int))
}

/// Index of the first line ending at or after `i`, or the length when there is none.
pub open spec fn newline_from(t: Seq<char>, i: int) -> int
    decreases t.len() - i,
{
    if i >= t.len() {
        t.len() as int
    } else if t[i] == '\n' {
        i
    } else {
        newline_from(t, i + 1)
    }
}

/// The tag name of a trimmed property segment: what precedes the first line ending,
/// without the character just before it (the closing `>` of the tag).
pub open spec fn key_of(t: Seq<char>) -> Seq<char> {
    let e = newline_from(t, 0);
    t.subrange(0, if e > 0 { e - 1 } else { 0 })
}

/// The value of a trimmed property segment: what follows the first line ending.
pub open spec fn value_of(t: Seq<char>) -> Seq<char> {
    let e = newline_from(t, 0);
    t.subrange(if e + 1 < t.len() { e + 1 } else { e }, t.len() as int)
}

proof fn lemma_lead_end_bounds(t: Seq<char>, i: int)
    requires
        0 <= i <= t.len(),
    ensures
        i <= lead_end(t, i) <= t.len(),
        forall|k: int| i <= k < lead_end(t, i) ==> is_ws(#[trigger] t[k]),
        lead_end(t, i) < t.len() ==> !is_ws(t[lead_end(t, i)]),
    decreases t.len() - i,
{
    if i < t.len() && is_ws(t[i]) {
        lemma_lead_end_bounds(t, i + 1);
    }
}

proof fn lemma_newline_at(t: Seq<char>, i: int, k: int)
    requires
        0 <= i <= k < t.len(),
        t[k] == '\n',
        forall|j: int| i <= j < k ==> t[j] != '\n',
    ensures
        newline_from(t, i) == k,
    decreases k - i,
{
    if i < k {
        lemma_newline_at(t, i + 1, k);
    }
}

/// A property segment `KEY>` line ending `VALUE` (what follows a tag marker)
/// gives back `KEY` as the raw key, its lower case as the normalized key,
/// `VALUE` as the raw value, and JSON as the typed value exactly when `VALUE`
/// parses as JSON; provided the key holds no line ending and does not start
/// with whitespace, and the value is not empty and does not end with whitespace.
pub proof fn lemma_property_round_trip(key: Seq<char>, value: Seq<char>, e: PropertyEntry)
    requires
        forall|i: int| 0 <= i < key.len() ==> #[trigger] key[i] != '\n',
        key.len() > 0 ==> !is_ws(key[0]),
        value.len() > 0,
        !is_ws(value.last()),
        entry_matches(e, key + seq!['>', '\n'] + value),
    ensures
        e.raw_key@ == key,
        e.normalized_key@ == lower_of(key),
        e.raw_value@ == value,
        typed_matches(e.typed_value, value),
{
    let seg = key + seq!['>', '\n'] + value;
    let n = seg.len() as int;
    assert(seg[0] == if key.len() > 0 { key[0] } else { '>' });
    assert(lead_end(seg, 0) == 0);
    assert(seg[n - 1] == value.last());
    assert(trail_end(seg, 0, n) == n);
    assert(trim_spec(seg) =~= seg);
    assert forall|j: int| 0 <= j < key.len() + 1 implies seg[j] != '\n' by {
        if j < key.len() {
            assert(seg[j] == key[j]);
        }
    }
    lemma_newline_at(seg, 0, key.len() as int + 1);
    assert(key_of(seg) =~= key);
    assert(value_of(seg) =~= value);
}

/// A record of a body and one property segment `KEY>` line ending `VALUE`
/// gives an item with exactly that one property, read back as in
/// `lemma_property_round_trip`, under the same conditions on key and value.
pub proof fn lemma_record_round_trip(body: Seq<char>, key: Seq<char>, value: Seq<char>, item: SdItem)
    requires
        body.len() > 0,
        forall|i: int| 0 <= i < key.len() ==> #[trigger] key[i] != '\n',
        key.len() > 0 ==> !is_ws(key[0]),
        value.len() > 0,
        !is_ws(value.last()),
        item_of_segments(item, seq![body, key + seq!['>', '\n'] + value]),
    ensures
        item.mol@ == gzip_of(body),
        item.props@.len() == 1,
        item.props@[0].raw_key@ == key,
        item.props@[0].normalized_key@ == lower_of(key),
        item.props@[0].raw_value@ == value,
        typed_matches(item.props@[0].typed_value, value),
{
    let segs = seq![body, key + seq!['>', '\n'] + value];
    assert(entry_matches(item.props@[0], segs[1]));
    lemma_property_round_trip(key, value, item.props@[0]);
}

/// Relies on `str::chars`: the characters of the text, in order.
#[verifier::external_body]
fn chars_of(s: &str) -> (r: Vec<char>)
    ensures
        r@ == s@,
{
    s.chars().collect()
}

/// Relies on `FromIterator<char> for String`: the text made of these characters.
#[verifier::external_body]
fn string_of(v: &[char]) -> (r: String)
    ensures
        r@ == v@,
{
    v.iter().collect()
}

fn is_ws_char(c: char) -> (r: bool)
    ensures
        r == is_ws(c),
{
    c == '\t' || c == '\n' || c == '\u{0B}' || c == '\u{0C}' || c == '\r' || c == ' '
        || c == '\u{85}' || c == '\u{A0}' || c == '\u{1680}' || ('\u{2000}' <= c && c
        <= '\u{200A}') || c == '\u{2028}' || c == '\u{2029}' || c == '\u{202F}' || c
        == '\u{205F}' || c == '\u{3000}'
}

fn sub_chars(v: &Vec<char>, a: usize, b: usize) -> (r: Vec<char>)
    requires
        a <= b <= v@.len(),
    ensures
        r@ == v@.subrange(a as int, b as int),
{
    let mut r: Vec<char> = Vec::new();
    let mut i: usize = a;
    while i < b
        invariant
            a <= i <= b <= v@.len(),
            r@ == v@.subrange(a as int, i as int),
        decreases b - i,
    {
        r.push(v[i]);
        i = i + 1;
        assert(r@ =~= v@.subrange(a as int, i as int));
    }
    r
}

/// The text without leading and trailing whitespace.
pub fn trim_chars(v: &Vec<char>) -> (r: Vec<char>)
    ensures
        r@ == trim_spec(v@),
{
    let ghost t = v@;
    let mut a: usize = 0;
    while a < v.len() && is_ws_char(v[a])
        invariant
            t == v@,
            a <= v@.len(),
            lead_end(t, 0) == lead_end(t, a as int),
        decreases v@.len() - a,
    {
        assert(lead_end(t, a as int) == lead_end(t, a as int + 1));
        a = a + 1;
    }
    let mut b: usize = v.len();
    while b > a && is_ws_char(v[b - 1])
        invariant
            t == v@,
            a <= b <= v@.len(),
            a == lead_end(t, 0),
            trail_end(t, a as int, t.len() as int) == trail_end(t, a as int, b as int),
        decreases b,
    {
        assert(trail_end(t, a as int, b as int) == trail_end(t, a as int, b - 1));
        b = b - 1;
    }
    proof {
        lemma_lead_end_bounds(t, 0);
    }
    sub_chars(v, a, b)
}

proof fn lemma_number_opens_nothing(t: Seq<char>)
    requires
        plain_number(t),
    ensures
        !opens_container(t),
{
    if !plain_integer(t) {
        let k = choose|k: int|
            0 < k < t.len() - 1 && t[k] == '.' && plain_integer(#[trigger] t.subrange(0, k))
                && all_digits(t.subrange(k + 1, t.len() as int));
        assert(t.subrange(0, k)[0] == t[0]);
    }
    assert('0' <= t[0] <= '9');
    assert(json_lead(t, 0) == 0);
}

proof fn lemma_number_no_exponent(t: Seq<char>)
    requires
        plain_number(t),
    ensures
        !long_exponent(t),
{
    assert forall|i: int| 0 <= i < t.len() implies t[i] == '.' || '0' <= t[i] <= '9' by {
        if !plain_integer(t) {
            let k = choose|k: int|
                0 < k < t.len() - 1 && t[k] == '.' && plain_integer(#[trigger] t.subrange(0, k))
                    && all_digits(t.subrange(k + 1, t.len() as int));
            if i < k {
                assert(t.subrange(0, k)[i] == t[i]);
            } else if i > k {
                assert(t.subrange(k + 1, t.len() as int)[i - k - 1] == t[i]);
            }
        }
    }
    if long_exponent(t) {
        let i = choose|i: int| #[trigger] long_exponent_at(t, i);
        assert(t[i] == '.' || '0' <= t[i] <= '9');
    }
}

fn is_digit(c: char) -> (r: bool)
    ensures
        r == ('0' <= c <= '9'),
{
    '0' <= c && c <= '9'
}

fn has_long_exponent(s: &str) -> (r: bool)
    ensures
        r == long_exponent(s@),
{
    let t = chars_of(s);
    let n = t.len();
    let mut i: usize = 0;
    while i < n
        invariant
            t@ == s@,
            n == t@.len(),
            i <= n,
            forall|k: int| 0 <= k < i ==> !#[trigger] long_exponent_at(t@, k),
        decreases n - i,
    {
        if t[i] == 'e' || t[i] == 'E' {
            let j: usize = if i + 1 < n && (t[i + 1] == '+' || t[i + 1] == '-') {
                i + 2
            } else {
                i + 1
            };
            if j <= n && n - j >= 10 {
                let mut m: usize = j;
                while m < j + 10 && is_digit(t[m])
                    invariant
                        t@ == s@,
                        n == t@.len(),
                        i < n,
                        t@[i as int] == 'e' || t@[i as int] == 'E',
                        j == exponent_digits_at(t@, i as int),
                        forall|k: int| 0 <= k < i ==> !#[trigger] long_exponent_at(t@, k),
                        j <= m <= j + 10 <= n,
                        forall|q: int| j <= q < m ==> '0' <= #[trigger] t@[q] <= '9',
                    decreases j + 10 - m,
                {
                    m = m + 1;
                }
                if m == j + 10 {
                    assert(long_exponent_at(t@, i as int));
                    return true;
                }
                assert(!long_exponent_at(t@, i as int));
            }
        }
        i = i + 1;
    }
    proof {
        if long_exponent(t@) {
            let k = choose|k: int| #[trigger] long_exponent_at(t@, k);
            assert(!long_exponent_at(t@, k));
        }
    }
    false
}

fn opens_json_container(s: &str) -> (r: bool)
    ensures
        r == opens_container(s@),
{
    let t = chars_of(s);
    let mut i: usize = 0;
    while i < t.len() && (t[i] == ' ' || t[i] == '\n' || t[i] == '\t' || t[i] == '\r')
        invariant
            t@ == s@,
            i <= t@.len(),
            json_lead(t@, 0) == json_lead(t@, i as int),
        decreases t@.len() - i,
    {
        assert(json_lead(t@, i as int) == json_lead(t@, i as int + 1));
        i = i + 1;
    }
    i < t.len() && (t[i] == '[' || t[i] == '{')
}

fn first_newline(t: &Vec<char>) -> (r: usize)
    ensures
        r == newline_from(t@, 0),
        r <= t@.len(),
{
    let mut i: usize = 0;
    while i < t.len() && t[i] != '\n'
        invariant
            i <= t@.len(),
            newline_from(t@, 0) == newline_from(t@, i as int),
        decreases t@.len() - i,
    {
        i = i + 1;
    }
    i
}

/// Splits a trimmed property segment into its tag name and its value.
pub fn split_property(t: &Vec<char>) -> (r: (Vec<char>, Vec<char>))
    ensures
        r.0@ == key_of(t@),
        r.1@ == value_of(t@),
{
    let e = first_newline(t);
    let k: usize = if e > 0 { e - 1 } else { 0 };
    let s: usize = if e < t.len() && e + 1 < t.len() { e + 1 } else { e };
    (sub_chars(t, 0, k), sub_chars(t, s, t.len()))
}


/// The property tag opening marker: `>`, optional whitespace, `<`.
pub const TAG_MARKER: &'static str = ">\\s*<";

/// The line that ends a record.
pub open spec fn is_delimiter(l: Seq<char>) -> bool {
    l == seq!['$', '$', '$', '$']
}

/// Whether `regex::Regex::new` accepts the pattern.
pub uninterp spec fn regex_valid(pattern: Seq<char>) -> bool;

/// The pieces that `regex::Regex::split` cuts the text into.
pub uninterp spec fn regex_split(pattern: Seq<char>, text: Seq<char>) -> Seq<Seq<char>>;

/// What `str::to_lowercase` returns.
pub uninterp spec fn lower_of(s: Seq<char>) -> Seq<char>;

/// A JSON scalar as `rustc_serialize::json::Json::from_str` reads it.
pub enum JsonScalar {
    /// A number (`I64`, `U64` or `F64`); its text is the value itself.
    Number,
    /// A string, with its escapes decoded.
    Str(String),
    Bool(bool),
    Null,
}

/// The view of a `JsonScalar`.
pub enum ScalarView {
    Number,
    Str(Seq<char>),
    Bool(bool),
    Null,
}

impl View for JsonScalar {
    type V = ScalarView;

    open spec fn view(&self) -> ScalarView {
        match self {
            JsonScalar::Number => ScalarView::Number,
            JsonScalar::Str(s) => ScalarView::Str(s@),
            JsonScalar::Bool(b) => ScalarView::Bool(*b),
            JsonScalar::Null => ScalarView::Null,
        }
    }
}

/// What `rustc_serialize::json::Json::from_str` reads from a text that does
/// not open an array or an object: the scalar, or nothing when it refuses the text.
pub uninterp spec fn json_scalar_of(s: Seq<char>) -> Option<ScalarView>;

/// The whitespace that the JSON reader skips.
pub open spec fn is_json_ws(c: char) -> bool {
    c == ' ' || c == '\n' || c == '\t' || c == '\r'
}

/// First index at or after `i` that is not JSON whitespace.
pub open spec fn json_lead(t: Seq<char>, i: int) -> int
    decreases t.len() - i,
{
    if 0 <= i < t.len() && is_json_ws(t[i]) {
        json_lead(t, i + 1)
    } else {
        i
    }
}

/// Whether the text, past leading JSON whitespace, opens an array or an object.
pub open spec fn opens_container(t: Seq<char>) -> bool {
    let i = json_lead(t, 0);
    0 <= i < t.len() && (t[i] == '[' || t[i] == '{')
}

/// Whether every character is an ASCII digit.
pub open spec fn all_digits(t: Seq<char>) -> bool {
    forall|i: int| 0 <= i < t.len() ==> '0' <= #[trigger] t[i] <= '9'
}

/// An integer part that the reader takes whole: one to nineteen digits (so it
/// fits in `u64`), without a leading zero unless it is the only digit.
pub open spec fn plain_integer(t: Seq<char>) -> bool {
    &&& 1 <= t.len() <= 19
    &&& all_digits(t)
    &&& (t.len() > 1 ==> t[0] != '0')
}

/// A plain unsigned number: an integer part, optionally a `.` and one or more digits.
pub open spec fn plain_number(t: Seq<char>) -> bool {
    ||| plain_integer(t)
    ||| exists|k: int|
        0 < k < t.len() - 1 && t[k] == '.' && plain_integer(#[trigger] t.subrange(0, k))
            && all_digits(t.subrange(k + 1, t.len() as int))
}

/// The gzip stream that `flate2::write::GzEncoder` makes of the text's bytes
/// at the default level.
pub uninterp spec fn gzip_of(s: Seq<char>) -> Seq<u8>;

/// Relies on `regex::Regex::new` (whether the pattern compiles) and
/// `regex::Regex::split` (the pieces between matches; at least one, the last
/// being what follows the last match).
#[verifier::external_body]
fn split_by_regex(pattern: &str, text: &str) -> (r: Option<Vec<String>>)
    ensures
        r.is_some() == regex_valid(pattern@),
        r matches Some(v) ==> (v@.len() == regex_split(pattern@, text@).len() && v@.len() >= 1
            && forall|i: int| 0 <= i < v@.len() ==> #[trigger] v@[i]@ == regex_split(pattern@, text@)[i]),
{
    match regex::Regex::new(pattern) {
        Ok(re) => Some(re.split(text).map(|p| p.to_string()).collect()),
        Err(_) => None,
    }
}

/// Relies on `str::to_lowercase`: the result depends on the characters alone.
#[verifier::external_body]
fn lowercase(s: &str) -> (r: String)
    ensures
        r@ == lower_of(s@),
{
    s.to_lowercase()
}

/// Where the digits of an exponent marked at `i` start: past a sign, if any.
pub open spec fn exponent_digits_at(t: Seq<char>, i: int) -> int {
    if i + 1 < t.len() && (t[i + 1] == '+' || t[i + 1] == '-') {
        i + 2
    } else {
        i + 1
    }
}

/// Whether an exponent marker at `i` is followed by ten digits or more.
pub open spec fn long_exponent_at(t: Seq<char>, i: int) -> bool {
    let j = exponent_digits_at(t, i);
    &&& 0 <= i < t.len()
    &&& (t[i] == 'e' || t[i] == 'E')
    &&& j + 10 <= t.len()
    &&& forall|m: int| j <= m < j + 10 ==> '0' <= #[trigger] t[m] <= '9'
}

/// Whether some `e` or `E` is followed (past a sign) by ten digits or more:
/// an exponent whose value the JSON reader may not hold.
pub open spec fn long_exponent(t: Seq<char>) -> bool {
    exists|i: int| #[trigger] long_exponent_at(t, i)
}

/// Whether the value is kept as text without being read as JSON: it opens an
/// array or an object, or it carries an exponent too long to be read.
pub open spec fn kept_unread(t: Seq<char>) -> bool {
    opens_container(t) || long_exponent(t)
}

/// Relies on `rustc_serialize::json::Json::from_str` on a text that opens no
/// array or object, where it reads one scalar without recursing: the scalar,
/// or nothing when the text is not JSON. It gathers exponent digits in a
/// `usize` without a check (`parse_exponent`); at most nine digits stay below
/// 10^9, which every `usize` holds. Digits, optionally with a fraction,
/// are read as a number (`parse_number`: `U64` for the integer part of at most
/// nineteen digits, `F64` with a fraction).
#[verifier::external_body]
fn parse_json_scalar(s: &str) -> (r: Option<JsonScalar>)
    requires
        !opens_container(s@),
        !long_exponent(s@),
    ensures
        r is None <==> json_scalar_of(s@) is None,
        r matches Some(j) ==> json_scalar_of(s@) == Some(j@),
        plain_number(s@) ==> r matches Some(JsonScalar::Number),
{
    match rustc_serialize::json::Json::from_str(s) {
        Ok(rustc_serialize::json::Json::I64(_)) => Some(JsonScalar::Number),
        Ok(rustc_serialize::json::Json::U64(_)) => Some(JsonScalar::Number),
        Ok(rustc_serialize::json::Json::F64(_)) => Some(JsonScalar::Number),
        Ok(rustc_serialize::json::Json::String(t)) => Some(JsonScalar::Str(t)),
        Ok(rustc_serialize::json::Json::Boolean(b)) => Some(JsonScalar::Bool(b)),
        Ok(rustc_serialize::json::Json::Null) => Some(JsonScalar::Null),
        Ok(rustc_serialize::json::Json::Array(_)) => None,
        Ok(rustc_serialize::json::Json::Object(_)) => None,
        Err(_) => None,
    }
}

/// Relies on `flate2::write::GzEncoder` at `Compression::default()` writing
/// into a `Vec`: it does not fail (the in-memory writer takes every byte, and
/// the deflate stream errs only in an internal error state), and the stream
/// depends on the text alone (operating system byte 255, time 0), and holds at
/// least its header.
#[verifier::external_body]
fn gzip(s: &str) -> (r: Option<Vec<u8>>)
    ensures
        r is Some,
        r matches Some(v) ==> (v@ == gzip_of(s@) && v@.len() > 0),
{
    let mut e = flate2::write::GzEncoder::new(Vec::new(), flate2::Compression::default());
    e.write_all(s.as_bytes()).ok()?;
    e.finish().ok()
}

/// Why a record could not become an item.
pub enum ParseError {
    /// The record has no molecule body before its first property tag.
    NoBody,
    /// Compressing the molecule body failed.
    CodecFailure,
    /// The property marker pattern was refused by the regular expression engine.
    InvalidMarker,
}

/// A property value: the JSON scalar it reads as, else the text itself.
pub enum TypedValue {
    /// A JSON number, kept as its text.
    Number(String),
    /// A JSON string, decoded.
    Str(String),
    Bool(bool),
    Null,
    /// Text that is no JSON scalar (arrays and objects included).
    Text(String),
}

/// One property of a record, kept both raw and normalized.
pub struct PropertyEntry {
    pub raw_key: String,
    pub normalized_key: String,
    pub raw_value: String,
    pub typed_value: TypedValue,
}

/// A parsed record: the compressed molecule body and its properties in order.
pub struct SdItem {
    pub mol: Vec<u8>,
    pub props: Vec<PropertyEntry>,
}

/// The typed form of a value: the JSON scalar it reads as, else the value as text.
pub open spec fn typed_matches(tv: TypedValue, v: Seq<char>) -> bool {
    &&& plain_number(v) ==> (tv matches TypedValue::Number(s) && s@ == v)
    &&& if kept_unread(v) {
        tv matches TypedValue::Text(s) && s@ == v
    } else {
        match json_scalar_of(v) {
            Some(ScalarView::Number) => tv matches TypedValue::Number(s) && s@ == v,
            Some(ScalarView::Str(d)) => tv matches TypedValue::Str(s) && s@ == d,
            Some(ScalarView::Bool(b)) => tv == TypedValue::Bool(b),
            Some(ScalarView::Null) => tv is Null,
            None => tv matches TypedValue::Text(s) && s@ == v,
        }
    }
}

/// The entry made of one property segment (the text between two tag markers).
pub open spec fn entry_matches(e: PropertyEntry, seg: Seq<char>) -> bool {
    let t = trim_spec(seg);
    &&& e.raw_key@ == key_of(t)
    &&& e.normalized_key@ == lower_of(key_of(t))
    &&& e.raw_value@ == value_of(t)
    &&& typed_matches(e.typed_value, value_of(t))
}

/// The segments of a record: its body, then one per property.
pub open spec fn segments_of(sd: Seq<char>) -> Seq<Seq<char>> {
    regex_split(TAG_MARKER@, sd)
}

/// Whether the record's body (its first segment) is missing.
pub open spec fn lacks_body(sd: Seq<char>) -> bool {
    segments_of(sd)[0].len() == 0
}

/// Whether a list of segments has no body: no segment at all, or an empty first one.
pub open spec fn segments_lack_body(segs: Seq<Seq<char>>) -> bool {
    segs.len() == 0 || segs[0].len() == 0
}

/// The views of a list of texts.
pub open spec fn views_of(v: Seq<String>) -> Seq<Seq<char>> {
    v.map_values(|s: String| s@)
}

/// The item made of a record.
pub open spec fn item_matches(item: SdItem, sd: Seq<char>) -> bool {
    item_of_segments(item, segments_of(sd))
}

/// The item made of a record's segments: the compressed body (the first
/// segment), then one entry per later segment, in order.
pub open spec fn item_of_segments(item: SdItem, segs: Seq<Seq<char>>) -> bool {
    &&& item.mol@ == gzip_of(segs[0])
    &&& item.mol@.len() > 0
    &&& item.props@.len() + 1 == segs.len()
    &&& forall|i: int| 0 <= i < item.props@.len() ==> entry_matches(#[trigger] item.props@[i], segs[i + 1])
}

/// Two typed values that hold the same thing.
pub open spec fn same_typed(a: TypedValue, b: TypedValue) -> bool {
    match (a, b) {
        (TypedValue::Number(x), TypedValue::Number(y)) => x@ == y@,
        (TypedValue::Str(x), TypedValue::Str(y)) => x@ == y@,
        (TypedValue::Bool(x), TypedValue::Bool(y)) => x == y,
        (TypedValue::Null, TypedValue::Null) => true,
        (TypedValue::Text(x), TypedValue::Text(y)) => x@ == y@,
        _ => false,
    }
}

/// Two entries that hold the same thing.
pub open spec fn same_entry(a: PropertyEntry, b: PropertyEntry) -> bool {
    &&& a.raw_key@ == b.raw_key@
    &&& a.normalized_key@ == b.normalized_key@
    &&& a.raw_value@ == b.raw_value@
    &&& same_typed(a.typed_value, b.typed_value)
}

/// A record determines its item: two items made of the same record hold the
/// same payload and the same properties, in the same order. So the row
/// written for a record does not depend on which worker parsed it, or when.
pub proof fn lemma_item_determined(x: SdItem, y: SdItem, sd: Seq<char>)
    requires
        item_matches(x, sd),
        item_matches(y, sd),
    ensures
        x.mol@ == y.mol@,
        x.props@.len() == y.props@.len(),
        forall|i: int| 0 <= i < x.props@.len() ==> same_entry(#[trigger] x.props@[i], y.props@[i]),
{
    assert forall|i: int| 0 <= i < x.props@.len() implies same_entry(
        #[trigger] x.props@[i],
        y.props@[i],
    ) by {
        assert(entry_matches(x.props@[i], segments_of(sd)[i + 1]));
        assert(entry_matches(y.props@[i], segments_of(sd)[i + 1]));
    }
}

impl SdItem {
    /// Parses one record: the text before the first tag marker is the molecule
    /// body, which is compressed; each later segment is one property.
    pub fn new(sd: &str) -> (r: Result<SdItem, ParseError>)
        ensures
            !regex_valid(TAG_MARKER@) ==> r matches Err(ParseError::InvalidMarker),
            regex_valid(TAG_MARKER@) && lacks_body(sd@) ==> r matches Err(ParseError::NoBody),
            regex_valid(TAG_MARKER@) && !lacks_body(sd@) ==> (r matches Ok(item) && item_matches(
                item,
                sd@,
            )),
    {
        let segs = match split_by_regex(TAG_MARKER, sd) {
            Some(v) => v,
            None => return Err(ParseError::InvalidMarker),
        };
        proof {
            assert(views_of(segs@) =~= segments_of(sd@));
        }
        Self::from_segments(&segs)
    }

    /// Builds the item from a record's segments (the text before the first tag
    /// marker, then the text after each): no body gives `NoBody`; otherwise the
    /// body is compressed and each later segment becomes one property.
    pub fn from_segments(segs: &Vec<String>) -> (r: Result<SdItem, ParseError>)
        ensures
            segments_lack_body(views_of(segs@)) ==> r matches Err(ParseError::NoBody),
            !segments_lack_body(views_of(segs@)) ==> (r matches Ok(item) && item_of_segments(
                item,
                views_of(segs@),
            )),
    {
        let ghost vs = views_of(segs@);
        if segs.len() == 0 {
            return Err(ParseError::NoBody);
        }
        let body: &str = segs[0].as_str();
        if body.is_empty() {
            return Err(ParseError::NoBody);
        }
        let mut props: Vec<PropertyEntry> = Vec::new();
        let mut i: usize = 1;
        while i < segs.len()
            invariant
                1 <= i <= segs@.len(),
                vs == views_of(segs@),
                props@.len() + 1 == i,
                forall|j: int| 0 <= j < props@.len() ==> entry_matches(#[trigger] props@[j], vs[j + 1]),
            decreases segs@.len() - i,
        {
            props.push(Self::read_entry(segs[i].as_str()));
            i = i + 1;
        }
        match gzip(body) {
            Some(mol) => Ok(SdItem { mol, props }),
            None => Err(ParseError::CodecFailure),
        }
    }

    /// Builds the entry of one property segment: the segment is trimmed, the
    /// tag name is cut before the first line ending, the value after it.
    pub fn read_entry(seg: &str) -> (r: PropertyEntry)
        ensures
            entry_matches(r, seg@),
    {
        let t = trim_chars(&chars_of(seg));
        let (k, v) = split_property(&t);
        let raw_key = string_of(k.as_slice());
        let normalized_key = lowercase(raw_key.as_str());
        let raw_value = string_of(v.as_slice());
        let typed_value = Self::read_property(raw_value.as_str());
        PropertyEntry { raw_key, normalized_key, raw_value, typed_value }
    }

    /// The JSON scalar the value reads as, else the value as text; arrays,
    /// objects and values with an exponent of ten digits or more stay text.
    pub fn read_property(p_val: &str) -> (r: TypedValue)
        ensures
            typed_matches(r, p_val@),
    {
        if opens_json_container(p_val) || has_long_exponent(p_val) {
            proof {
                if plain_number(p_val@) {
                    lemma_number_opens_nothing(p_val@);
                    lemma_number_no_exponent(p_val@);
                }
            }
            return TypedValue::Text(p_val.to_string());
        }
        match parse_json_scalar(p_val) {
            Some(JsonScalar::Number) => TypedValue::Number(p_val.to_string()),
            Some(JsonScalar::Str(d)) => TypedValue::Str(d),
            Some(JsonScalar::Bool(b)) => TypedValue::Bool(b),
            Some(JsonScalar::Null) => TypedValue::Null,
            None => TypedValue::Text(p_val.to_string()),
        }
    }
}


/// Splits a stream of lines into records: the lines up to a `$$$$` line, each
/// followed by a line ending.
pub struct SdParser {
    current: String,
}

impl View for SdParser {
    type V = Seq<char>;

    /// The text of the record being gathered.
    closed spec fn view(&self) -> Seq<char> {
        self.current@
    }
}

fn is_delimiter_line(line: &str) -> (r: bool)
    ensures
        r == is_delimiter(line@),
{
    let c = chars_of(line);
    let r = c.len() == 4 && c[0] == '$' && c[1] == '$' && c[2] == '$' && c[3] == '$';
    proof {
        if r {
            assert(c@ =~= seq!['$', '$', '$', '$']);
        }
    }
    r
}

impl SdParser {
    /// A splitter that has gathered nothing yet.
    pub fn new() -> (r: SdParser)
        ensures
            r@ == Seq::<char>::empty(),
    {
        SdParser { current: String::new() }
    }

    /// Takes the next line (without its line ending). A `$$$$` line ends the
    /// record being gathered, which is returned unless it is empty; any other
    /// line is added to it.
    pub fn push_line(&mut self, line: &str) -> (r: Option<String>)
        ensures
            is_delimiter(line@) ==> final(self)@ == Seq::<char>::empty() && (if old(self)@.len()
                == 0 {
                r is None
            } else {
                (r matches Some(rec) && rec@ == old(self)@)
            }),
            !is_delimiter(line@) ==> r is None && final(self)@ == old(self)@ + line@ + seq!['\n'],
    {
        if is_delimiter_line(line) {
            self.finish()
        } else {
            self.current.append(line);
            proof {
                reveal_strlit("\n");
            }
            self.current.append("\n");
            None
        }
    }

    /// Ends the input: returns the record being gathered unless it is empty.
    pub fn finish(&mut self) -> (r: Option<String>)
        ensures
            final(self)@ == Seq::<char>::empty(),
            old(self)@.len() == 0 ==> r is None,
            old(self)@.len() > 0 ==> (r matches Some(rec) && rec@ == old(self)@),
    {
        if self.current.as_str().is_empty() {
            None
        } else {
            let rec = self.current.clone();
            self.current = String::new();
            Some(rec)
        }
    }
}

} // verus!
