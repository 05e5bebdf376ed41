//! Text as a sequence of characters: trimming, searching, splitting, joining,
//! replacing and number formatting, each stated over `Seq<char>`.

use vstd::prelude::*;
use vstd::string::*;

verus! {

broadcast use vstd::string::group_string_axioms;

/// The character has the Unicode `White_Space` property.
pub open spec fn is_white(c: char) -> bool {
    let u = c as u32;
    ||| 0x9 <= u <= 0xd
    ||| u == 0x20
    ||| u == 0x85
    ||| u == 0xa0
    ||| u == 0x1680
    ||| 0x2000 <= u <= 0x200a
    ||| u == 0x2028
    ||| u == 0x2029
    ||| u == 0x202f
    ||| u == 0x205f
    ||| u == 0x3000
}

/// `s` without its leading white space.
pub open spec fn trimmed_start(s: Seq<char>) -> Seq<char>
    decreases s.len(),
{
    if s.len() > 0 && is_white(s[0]) {
        trimmed_start(s.drop_first())
    } else {
        s
    }
}

/// `s` without its trailing white space.
pub open spec fn trimmed_end(s: Seq<char>) -> Seq<char>
    decreases s.len(),
{
    if s.len() > 0 && is_white(s.last()) {
        trimmed_end(s.drop_last())
    } else {
        s
    }
}

/// `s` without white space at either end.
pub open spec fn trimmed(s: Seq<char>) -> Seq<char> {
    trimmed_end(trimmed_start(s))
}

/// `s` begins with `prefix`.
pub open spec fn has_prefix(s: Seq<char>, prefix: Seq<char>) -> bool {
    prefix.len() <= s.len() && s.subrange(0, prefix.len() as int) == prefix
}

/// `part` stands in `s` at position `i`.
pub open spec fn occurs_at(s: Seq<char>, part: Seq<char>, i: int) -> bool {
    0 <= i && i + part.len() <= s.len() && s.subrange(i, i + part.len()) == part
}

/// `part` stands somewhere in `s`.
pub open spec fn has_part(s: Seq<char>, part: Seq<char>) -> bool {
    exists|i: int| #[trigger] occurs_at(s, part, i)
}

/// The pieces of `s` between the occurrences of `sep`; one piece when there is none.
pub open spec fn split_on(s: Seq<char>, sep: char) -> Seq<Seq<char>>
    decreases s.len(),
{
    if s.len() == 0 {
        seq![Seq::empty()]
    } else {
        let rest = split_on(s.drop_last(), sep);
        if s.last() == sep {
            rest.push(Seq::empty())
        } else {
            rest.update(rest.len() - 1, rest.last().push(s.last()))
        }
    }
}

/// The parts in order with `sep` between neighbours.
pub open spec fn joined(parts: Seq<Seq<char>>, sep: Seq<char>) -> Seq<char>
    decreases parts.len(),
{
    if parts.len() == 0 {
        Seq::empty()
    } else if parts.len() == 1 {
        parts[0]
    } else {
        joined(parts.drop_last(), sep) + sep + parts.last()
    }
}

/// The parts that hold at least one character, in order.
pub open spec fn nonempty_parts(parts: Seq<Seq<char>>) -> Seq<Seq<char>>
    decreases parts.len(),
{
    if parts.len() == 0 {
        Seq::empty()
    } else {
        let rest = nonempty_parts(parts.drop_last());
        if parts.last().len() > 0 {
            rest.push(parts.last())
        } else {
            rest
        }
    }
}

/// `s` with every `from` turned into `to`.
pub open spec fn char_replaced(s: Seq<char>, from: char, to: char) -> Seq<char> {
    Seq::new(s.len(), |i: int| if s[i] == from { to } else { s[i] })
}

/// `s` with each occurrence of `part` (taken from the left, not overlapping) turned into `by`.
pub open spec fn part_replaced(s: Seq<char>, part: Seq<char>, by: Seq<char>) -> Seq<char>
    decreases s.len(),
{
    if s.len() == 0 || part.len() == 0 {
        s
    } else if has_prefix(s, part) {
        by + part_replaced(s.subrange(part.len() as int, s.len() as int), part, by)
    } else {
        seq![s[0]] + part_replaced(s.drop_first(), part, by)
    }
}

/// ASCII lower case of one character; other characters stay.
pub open spec fn ascii_lower(c: char) -> char {
    if 'A' <= c && c <= 'Z' {
        (c as u32 + 32) as char
    } else {
        c
    }
}

/// ASCII lower case, character by character.
pub open spec fn ascii_lowered(s: Seq<char>) -> Seq<char> {
    Seq::new(s.len(), |i: int| ascii_lower(s[i]))
}

/// The decimal digit for `d`, which is below ten.
pub open spec fn digit(d: nat) -> char {
    (48 + d) as char
}

/// `n` written in decimal.
pub open spec fn decimal(n: nat) -> Seq<char>
    decreases n,
{
    if n < 10 {
        seq![digit(n)]
    } else {
        decimal(n / 10).push(digit(n % 10))
    }
}

/// Every character is an ASCII digit.
pub open spec fn all_digits(s: Seq<char>) -> bool {
    forall|i: int| 0 <= i < s.len() ==> '0' <= #[trigger] s[i] && s[i] <= '9'
}

/// The number that a sequence of ASCII digits writes in decimal.
pub open spec fn digits_value(s: Seq<char>) -> nat
    decreases s.len(),
{
    if s.len() == 0 {
        0
    } else {
        digits_value(s.drop_last()) * 10 + (s.last() as nat - 48) as nat
    }
}

/// What reading `s` as an unsigned number no larger than `max` gives: an
/// optional `+`, then at least one digit and nothing else.
pub open spec fn parsed_number(s: Seq<char>, max: nat) -> Option<nat> {
    let digits = if s.len() > 0 && s[0] == '+' { s.drop_first() } else { s };
    if digits.len() > 0 && all_digits(digits) && digits_value(digits) <= max {
        Some(digits_value(digits))
    } else {
        None
    }
}

/// Dictionary order by code point.
pub open spec fn text_before(a: Seq<char>, b: Seq<char>) -> bool
    decreases a.len(),
{
    if b.len() == 0 {
        false
    } else if a.len() == 0 {
        true
    } else if a[0] != b[0] {
        a[0] < b[0]
    } else {
        text_before(a.drop_first(), b.drop_first())
    }
}

/// The lines of `s`: pieces between line feeds, each without one carriage
/// return at its end; an empty last piece is no line.
pub open spec fn lines_of(s: Seq<char>) -> Seq<Seq<char>> {
    let parts = split_on(s, '\n');
    let kept = if parts.last().len() == 0 { parts.drop_last() } else { parts };
    Seq::new(kept.len(), |i: int| without_carriage_return(kept[i], i + 1 < parts.len()))
}

/// A piece without the carriage return that ends it, where a line feed follows.
pub open spec fn without_carriage_return(s: Seq<char>, fed: bool) -> Seq<char> {
    if fed && s.len() > 0 && s.last() == '\r' {
        s.drop_last()
    } else {
        s
    }
}

/// The views of strings, in order.
pub open spec fn texts(v: Seq<String>) -> Seq<Seq<char>> {
    Seq::new(v.len(), |i: int| v[i]@)
}

/// The view of an optional string.
pub open spec fn opt_text(s: Option<String>) -> Option<Seq<char>> {
    match s {
        Some(t) => Some(t@),
        None => None,
    }
}

/// Number of bytes that `s` takes in UTF-8.
pub open spec fn byte_len(s: Seq<char>) -> nat {
    vstd::utf8::encode_utf8(s).len()
}

/// The upper case that std gives a text by Unicode's mapping.
pub uninterp spec fn uppercase_text(s: Seq<char>) -> Seq<char>;

/// The lower case that std gives a text by Unicode's mapping.
pub uninterp spec fn lowercase_text(s: Seq<char>) -> Seq<char>;

/// `str::to_uppercase`, a function of the text alone, named `uppercase_text`.
#[verifier::external_body]
pub(crate) fn to_uppercase(s: &str) -> (r: String)
    ensures
        r@ == uppercase_text(s@),
{
    s.to_uppercase()
}

/// `str::to_lowercase`, a function of the text alone, named `lowercase_text`.
#[verifier::external_body]
pub(crate) fn to_lowercase(s: &str) -> (r: String)
    ensures
        r@ == lowercase_text(s@),
{
    s.to_lowercase()
}

/// The text of a string as `Debug` writes it: in quotes, with escapes.
pub uninterp spec fn quoted(s: Seq<char>) -> Seq<char>;

/// `<str as Debug>::fmt` through `format!`, a function of the text alone, named `quoted`.
#[verifier::external_body]
pub(crate) fn quote(s: &str) -> (r: String)
    ensures
        r@ == quoted(s@),
{
    format!("{:?}", s)
}

/// What std says against bytes that are no UTF-8.
pub uninterp spec fn utf8_error(bytes: Seq<u8>) -> Seq<char>;

/// `String::from_utf8`: the text that the bytes encode, where they are valid
/// UTF-8, else the error's own text, named `utf8_error`.
#[verifier::external_body]
pub(crate) fn from_utf8(bytes: Vec<u8>) -> (r: Result<String, String>)
    ensures
        match r {
            Ok(s) => vstd::utf8::valid_utf8(bytes@) && s@ == vstd::utf8::decode_utf8(bytes@),
            Err(e) => !vstd::utf8::valid_utf8(bytes@) && e@ == utf8_error(bytes@),
        },
{
    String::from_utf8(bytes).map_err(|e| e.to_string())
}

/// What std makes of bytes that are no UTF-8, with replacement characters.
pub uninterp spec fn patched_text(bytes: Seq<u8>) -> Seq<char>;

/// The text that bytes encode; where they are no UTF-8, `patched_text`.
pub open spec fn lossy_text(bytes: Seq<u8>) -> Seq<char> {
    if vstd::utf8::valid_utf8(bytes) {
        vstd::utf8::decode_utf8(bytes)
    } else {
        patched_text(bytes)
    }
}

/// `String::from_utf8_lossy`: valid UTF-8 is decoded as it is; of other bytes
/// the result is a function of the bytes alone, named `patched_text`.
#[verifier::external_body]
pub(crate) fn from_utf8_lossy(bytes: &Vec<u8>) -> (r: String)
    ensures
        r@ == (if vstd::utf8::valid_utf8(bytes@) {
            vstd::utf8::decode_utf8(bytes@)
        } else {
            patched_text(bytes@)
        }),
{
    String::from_utf8_lossy(bytes).into_owned()
}

/// The bytes that encode a text.
pub fn bytes_of(s: &str) -> (r: Vec<u8>)
    ensures
        r@ == vstd::utf8::encode_utf8(s@),
{
    vstd::slice::slice_to_vec(s.as_bytes())
}

/// The same bytes again.
pub fn copy_bytes(bytes: &Vec<u8>) -> (r: Vec<u8>)
    ensures
        r@ == bytes@,
{
    vstd::slice::slice_to_vec(bytes.as_slice())
}

/// The text that UTF-16 code units write; `None` where a surrogate stands alone.
pub open spec fn utf16_text(units: Seq<u16>) -> Option<Seq<char>>
    decreases units.len(),
{
    if units.len() == 0 {
        Some(Seq::empty())
    } else {
        let u = units[0] as int;
        if u < 0xd800 || u > 0xdfff {
            match utf16_text(units.drop_first()) {
                Some(rest) => Some(seq![u as char] + rest),
                None => None,
            }
        } else if u <= 0xdbff && units.len() > 1 && 0xdc00 <= units[1] <= 0xdfff {
            let c = 0x10000 + (u - 0xd800) * 0x400 + (units[1] - 0xdc00);
            match utf16_text(units.skip(2)) {
                Some(rest) => Some(seq![c as char] + rest),
                None => None,
            }
        } else {
            None
        }
    }
}

/// What std says against code units that are no UTF-16.
pub uninterp spec fn utf16_error(units: Seq<u16>) -> Seq<char>;

/// `String::from_utf16`: the text that the code units write, where they are
/// valid UTF-16, else the error's own text, named `utf16_error`.
#[verifier::external_body]
pub(crate) fn from_utf16(units: &Vec<u16>) -> (r: Result<String, String>)
    ensures
        match (r, utf16_text(units@)) {
            (Ok(s), Some(t)) => s@ == t,
            (Err(e), None) => e@ == utf16_error(units@),
            _ => false,
        },
{
    String::from_utf16(units).map_err(|e| e.to_string())
}

/// The texts in quotes, between square brackets, with commas between.
pub open spec fn quoted_list(parts: Seq<Seq<char>>) -> Seq<char> {
    "["@ + joined(Seq::new(parts.len(), |i: int| quoted(parts[i])), ", "@) + "]"@
}

/// std counts the character among letters and numbers of Unicode.
pub uninterp spec fn alphanumeric(c: char) -> bool;

/// `char::is_alphanumeric`, a function of the character alone, named `alphanumeric`.
#[verifier::external_body]
pub(crate) fn is_alphanumeric(c: char) -> (r: bool)
    ensures
        r == alphanumeric(c),
{
    c.is_alphanumeric()
}

/// The characters of a string, in order.
pub fn to_chars(s: &str) -> (r: Vec<char>)
    ensures
        r@ == s@,
{
    let mut out: Vec<char> = Vec::new();
    for c in it: s.chars()
        invariant
            it.seq() == s@,
            out@ == s@.take(it.index() as int),
    {
        out.push(c);
        assert(s@.take(it.index() as int).push(c) =~= s@.take(it.index() + 1));
    }
    assert(out@ =~= s@);
    out
}

/// `String::from_iter`: the string that holds exactly the given characters.
#[verifier::external_body]
pub(crate) fn string_of(chars: &Vec<char>) -> (r: String)
    ensures
        r@ == chars@,
{
    String::from_iter(chars.iter())
}

/// The two texts hold the same characters.
pub fn text_eq(a: &str, b: &str) -> (r: bool)
    ensures
        r == (a@ == b@),
{
    a.to_string() == b.to_string()
}

/// The first text followed by the second.
pub fn cat(a: &str, b: &str) -> (r: String)
    ensures
        r@ == a@ + b@,
{
    let mut out = a.to_string();
    out.append(b);
    out
}

/// Position after the white space that starts `chars` at `from`.
fn skip_white(chars: &Vec<char>, from: usize) -> (r: usize)
    requires
        from <= chars@.len(),
    ensures
        from <= r <= chars@.len(),
        trimmed_start(chars@.subrange(from as int, chars@.len() as int)) == chars@.subrange(
            r as int,
            chars@.len() as int,
        ),
{
    let mut i: usize = from;
    while i < chars.len() && is_whitespace(chars[i])
        invariant
            from <= i <= chars@.len(),
            trimmed_start(chars@.subrange(from as int, chars@.len() as int)) == trimmed_start(
                chars@.subrange(i as int, chars@.len() as int),
            ),
        decreases chars@.len() - i,
    {
        assert(chars@.subrange(i as int, chars@.len() as int).drop_first() =~= chars@.subrange(
            i + 1,
            chars@.len() as int,
        ));
        i += 1;
    }
    i
}

/// Whether the character has the Unicode `White_Space` property.
pub fn is_whitespace(c: char) -> (r: bool)
    ensures
        r == is_white(c),
{
    let u: u32 = c as u32;
    (0x9 <= u && u <= 0xd) || u == 0x20 || u == 0x85 || u == 0xa0 || u == 0x1680 || (0x2000 <= u
        && u <= 0x200a) || u == 0x2028 || u == 0x2029 || u == 0x202f || u == 0x205f || u == 0x3000
}

/// Position where the white space that ends `chars[from..to]` begins.
fn skip_white_back(chars: &Vec<char>, from: usize, to: usize) -> (r: usize)
    requires
        from <= to <= chars@.len(),
    ensures
        from <= r <= to,
        trimmed_end(chars@.subrange(from as int, to as int)) == chars@.subrange(
            from as int,
            r as int,
        ),
{
    let mut j: usize = to;
    while j > from && is_whitespace(chars[j - 1])
        invariant
            from <= j <= to <= chars@.len(),
            trimmed_end(chars@.subrange(from as int, to as int)) == trimmed_end(
                chars@.subrange(from as int, j as int),
            ),
        decreases j,
    {
        assert(chars@.subrange(from as int, j as int).drop_last() =~= chars@.subrange(
            from as int,
            j - 1,
        ));
        j -= 1;
    }
    j
}

/// The characters `chars[from..to]`.
pub fn slice(chars: &Vec<char>, from: usize, to: usize) -> (r: Vec<char>)
    requires
        from <= to <= chars@.len(),
    ensures
        r@ == chars@.subrange(from as int, to as int),
{
    let mut out: Vec<char> = Vec::new();
    let mut i: usize = from;
    while i < to
        invariant
            from <= i <= to <= chars@.len(),
            out@ == chars@.subrange(from as int, i as int),
        decreases to - i,
    {
        out.push(chars[i]);
        i += 1;
        assert(out@ =~= chars@.subrange(from as int, i as int));
    }
    out
}

/// The text without white space at either end.
pub fn trim(s: &str) -> (r: String)
    ensures
        r@ == trimmed(s@),
{
    let chars = to_chars(s);
    let a: usize = skip_white(&chars, 0);
    let b: usize = skip_white_back(&chars, a, chars.len());
    assert(chars@.subrange(0, chars@.len() as int) =~= s@);
    let kept = slice(&chars, a, b);
    string_of(&kept)
}

/// Whether the text is empty or white space throughout.
pub fn is_blank(s: &str) -> (r: bool)
    ensures
        r == (trimmed(s@).len() == 0),
{
    trim(s).as_str().unicode_len() == 0
}

/// Whether `part` stands in `chars` at position `at`.
pub fn matches_at(chars: &Vec<char>, part: &Vec<char>, at: usize) -> (r: bool)
    ensures
        r == occurs_at(chars@, part@, at as int),
{
    if at > chars.len() || part.len() > chars.len() - at {
        return false;
    }
    let n: usize = chars.len();
    let mut i: usize = 0;
    while i < part.len()
        invariant
            i <= part@.len(),
            n == chars@.len(),
            at + part@.len() <= n,
            forall|k: int| 0 <= k < i ==> chars@[at + k] == #[trigger] part@[k],
        decreases part@.len() - i,
    {
        if chars[at + i] != part[i] {
            assert(chars@.subrange(at as int, at + part@.len())[i as int] != part@[i as int]);
            return false;
        }
        i += 1;
    }
    assert(chars@.subrange(at as int, at + part@.len()) =~= part@);
    true
}

/// `i` is where `part` first stands in `s` at or after `from`.
pub open spec fn first_at(s: Seq<char>, part: Seq<char>, from: int, i: int) -> bool {
    &&& from <= i
    &&& occurs_at(s, part, i)
    &&& forall|k: int| from <= k < i ==> !#[trigger] occurs_at(s, part, k)
}

/// `part` stands nowhere in `s` at or after `from`.
pub open spec fn none_from(s: Seq<char>, part: Seq<char>, from: int) -> bool {
    forall|k: int| from <= k ==> !#[trigger] occurs_at(s, part, k)
}

/// The first position at or after `from` where `part` stands.
pub fn find_from(chars: &Vec<char>, part: &Vec<char>, from: usize) -> (r: Option<usize>)
    ensures
        match r {
            Some(i) => first_at(chars@, part@, from as int, i as int),
            None => none_from(chars@, part@, from as int),
        },
{
    let mut i: usize = from;
    while i <= chars.len() && part.len() <= chars.len() - i
        invariant
            from <= i,
            forall|k: int| from <= k < i ==> !#[trigger] occurs_at(chars@, part@, k),
        decreases chars@.len() + 1 - i,
    {
        if matches_at(chars, part, i) {
            return Some(i);
        }
        if i == chars.len() {
            return None;
        }
        i += 1;
    }
    None
}

/// Whether the text begins with `prefix`.
pub fn starts_with(s: &str, prefix: &str) -> (r: bool)
    ensures
        r == has_prefix(s@, prefix@),
{
    let chars = to_chars(s);
    let part = to_chars(prefix);
    matches_at(&chars, &part, 0)
}

/// `s` ends with `suffix`.
pub open spec fn has_suffix(s: Seq<char>, suffix: Seq<char>) -> bool {
    occurs_at(s, suffix, s.len() - suffix.len())
}

/// Whether the text ends with `suffix`.
pub fn ends_with(s: &str, suffix: &str) -> (r: bool)
    ensures
        r == has_suffix(s@, suffix@),
{
    let chars = to_chars(s);
    let part = to_chars(suffix);
    if part.len() > chars.len() {
        false
    } else {
        matches_at(&chars, &part, chars.len() - part.len())
    }
}

/// Whether `part` stands somewhere in the text.
pub fn contains(s: &str, part: &str) -> (r: bool)
    ensures
        r == has_part(s@, part@),
{
    let chars = to_chars(s);
    let wanted = to_chars(part);
    match find_from(&chars, &wanted, 0) {
        Some(_) => true,
        None => false,
    }
}

/// `s` without `prefix` at its start, where it has it.
pub fn strip_prefix(s: &str, prefix: &str) -> (r: Option<String>)
    ensures
        match r {
            Some(t) => has_prefix(s@, prefix@) && t@ == s@.subrange(
                prefix@.len() as int,
                s@.len() as int,
            ),
            None => !has_prefix(s@, prefix@),
        },
{
    let chars = to_chars(s);
    let part = to_chars(prefix);
    if matches_at(&chars, &part, 0) {
        let rest = slice(&chars, part.len(), chars.len());
        Some(string_of(&rest))
    } else {
        None
    }
}

/// The pieces between the occurrences of `sep`.
pub fn split(s: &str, sep: char) -> (r: Vec<String>)
    ensures
        texts(r@) == split_on(s@, sep),
        r@.len() > 0,
{
    let chars = to_chars(s);
    let mut done: Vec<String> = Vec::new();
    let mut last: Vec<char> = Vec::new();
    let mut i: usize = 0;
    while i < chars.len()
        invariant
            i <= chars@.len(),
            texts(done@).push(last@) == split_on(chars@.take(i as int), sep),
        decreases chars@.len() - i,
    {
        let c = chars[i];
        let ghost before = texts(done@).push(last@);
        assert(chars@.take(i + 1).drop_last() =~= chars@.take(i as int));
        if c == sep {
            done.push(string_of(&last));
            last = Vec::new();
            assert(texts(done@) =~= before);
            assert(last@ =~= Seq::<char>::empty());
        } else {
            last.push(c);
            assert(texts(done@).push(last@) =~= before.update(before.len() - 1, last@));
        }
        i += 1;
    }
    let ghost before = texts(done@).push(last@);
    done.push(string_of(&last));
    assert(texts(done@) =~= before);
    assert(chars@.take(chars@.len() as int) =~= s@);
    done
}

/// The parts with `sep` between neighbours.
pub fn join(parts: &Vec<String>, sep: &str) -> (r: String)
    ensures
        r@ == joined(texts(parts@), sep@),
{
    let mut out = String::new();
    let mut i: usize = 0;
    assert(texts(parts@).take(0) =~= Seq::empty());
    while i < parts.len()
        invariant
            i <= parts@.len(),
            out@ == joined(texts(parts@).take(i as int), sep@),
        decreases parts@.len() - i,
    {
        assert(texts(parts@).take(i + 1).drop_last() =~= texts(parts@).take(i as int));
        if i > 0 {
            out.append(sep);
        }
        out.append(parts[i].as_str());
        proof {
            if i == 0 {
                assert(out@ =~= parts@[0]@);
            }
        }
        i += 1;
    }
    assert(texts(parts@).take(parts@.len() as int) =~= texts(parts@));
    out
}

/// The texts in quotes, between square brackets, with commas between.
pub fn quote_list(parts: &Vec<String>) -> (r: String)
    ensures
        r@ == quoted_list(texts(parts@)),
{
    let ghost want = Seq::new(texts(parts@).len(), |i: int| quoted(texts(parts@)[i]));
    let mut out: Vec<String> = Vec::new();
    let mut i: usize = 0;
    while i < parts.len()
        invariant
            i <= parts@.len(),
            out@.len() == i,
            forall|k: int| 0 <= k < i ==> #[trigger] out@[k]@ == quoted(parts@[k]@),
        decreases parts@.len() - i,
    {
        out.push(quote(parts[i].as_str()));
        i += 1;
    }
    assert(texts(out@) =~= want);
    let inner = join(&out, ", ");
    cat(cat("[", inner.as_str()).as_str(), "]")
}

/// The same texts again.
pub fn copy_texts(parts: &Vec<String>) -> (r: Vec<String>)
    ensures
        texts(r@) == texts(parts@),
{
    let mut out: Vec<String> = Vec::new();
    let mut i: usize = 0;
    while i < parts.len()
        invariant
            i <= parts@.len(),
            out@.len() == i,
            forall|k: int| 0 <= k < i ==> #[trigger] out@[k]@ == parts@[k]@,
        decreases parts@.len() - i,
    {
        out.push(parts[i].clone());
        i += 1;
    }
    assert(texts(out@) =~= texts(parts@));
    out
}

/// The text with every `from` turned into `to`.
pub fn replace_char(s: &str, from: char, to: char) -> (r: String)
    ensures
        r@ == char_replaced(s@, from, to),
{
    let chars = to_chars(s);
    let mut out: Vec<char> = Vec::new();
    let mut i: usize = 0;
    while i < chars.len()
        invariant
            i <= chars@.len(),
            out@ == char_replaced(chars@.take(i as int), from, to),
        decreases chars@.len() - i,
    {
        out.push(if chars[i] == from { to } else { chars[i] });
        i += 1;
        assert(out@ =~= char_replaced(chars@.take(i as int), from, to));
    }
    assert(chars@.take(chars@.len() as int) =~= s@);
    string_of(&out)
}

/// The text with each occurrence of `part` turned into `by`.
pub fn replace(s: &str, part: &str, by: &str) -> (r: String)
    ensures
        r@ == part_replaced(s@, part@, by@),
{
    let chars = to_chars(s);
    let wanted = to_chars(part);
    if wanted.len() == 0 {
        return s.to_string();
    }
    let insert = to_chars(by);
    let mut out: Vec<char> = Vec::new();
    let mut i: usize = 0;
    assert(out@ + part_replaced(s@, part@, by@) =~= part_replaced(s@, part@, by@));
    assert(s@.subrange(0, s@.len() as int) =~= s@);
    while i < chars.len()
        invariant
            i <= chars@.len(),
            chars@ == s@,
            wanted@ == part@,
            insert@ == by@,
            wanted@.len() > 0,
            out@ + part_replaced(s@.subrange(i as int, s@.len() as int), part@, by@)
                == part_replaced(s@, part@, by@),
        decreases chars@.len() - i,
    {
        let ghost rest = s@.subrange(i as int, s@.len() as int);
        let ghost before = out@;
        let here = matches_at(&chars, &wanted, i);
        proof {
            if here {
                assert(rest.subrange(0, part@.len() as int) =~= part@);
                assert(rest.subrange(part@.len() as int, rest.len() as int) =~= s@.subrange(
                    i + part@.len(),
                    s@.len() as int,
                ));
            } else {
                if has_prefix(rest, part@) {
                    assert(s@.subrange(i as int, i + part@.len()) =~= part@);
                }
                assert(rest.drop_first() =~= s@.subrange(i + 1, s@.len() as int));
            }
        }
        if here {
            let mut add = insert.clone();
            out.append(&mut add);
            i += wanted.len();
            assert(out@ =~= before + by@);
        } else {
            out.push(chars[i]);
            i += 1;
            assert(out@ =~= before + seq![rest[0]]);
        }
        assert(out@ + part_replaced(s@.subrange(i as int, s@.len() as int), part@, by@) =~= before
            + part_replaced(rest, part@, by@));
    }
    assert(s@.subrange(i as int, s@.len() as int) =~= Seq::empty());
    assert(out@ =~= part_replaced(s@, part@, by@));
    string_of(&out)
}

/// ASCII lower case of one character.
pub fn lower_char(c: char) -> (r: char)
    ensures
        r == ascii_lower(c),
{
    if 'A' <= c && c <= 'Z' {
        let b: u8 = c as u8;
        (b + 32) as char
    } else {
        c
    }
}

/// The text in ASCII lower case.
pub fn to_ascii_lowercase(s: &str) -> (r: String)
    ensures
        r@ == ascii_lowered(s@),
{
    let chars = to_chars(s);
    let mut out: Vec<char> = Vec::new();
    let mut i: usize = 0;
    while i < chars.len()
        invariant
            i <= chars@.len(),
            out@ == ascii_lowered(chars@.take(i as int)),
        decreases chars@.len() - i,
    {
        out.push(lower_char(chars[i]));
        i += 1;
        assert(out@ =~= ascii_lowered(chars@.take(i as int)));
    }
    assert(chars@.take(chars@.len() as int) =~= s@);
    string_of(&out)
}

/// Whether the texts agree when ASCII letters lose their case.
pub fn eq_ignore_ascii_case(a: &str, b: &str) -> (r: bool)
    ensures
        r == (ascii_lowered(a@) == ascii_lowered(b@)),
{
    to_ascii_lowercase(a) == to_ascii_lowercase(b)
}

/// The number written in decimal.
pub fn decimal_text(n: u64) -> (r: String)
    ensures
        r@ == decimal(n as nat),
    decreases n,
{
    let low: u8 = (n % 10) as u8;
    let c: char = (48 + low) as char;
    let mut one: Vec<char> = Vec::new();
    one.push(c);
    let last = string_of(&one);
    assert(one@ =~= seq![digit((n % 10) as nat)]);
    if n < 10 {
        last
    } else {
        let mut out = decimal_text(n / 10);
        out.append(last.as_str());
        assert(out@ =~= decimal((n / 10) as nat).push(digit((n % 10) as nat)));
        out
    }
}

proof fn lemma_digits_grow(s: Seq<char>, i: int)
    requires
        0 <= i <= s.len(),
        all_digits(s),
    ensures
        digits_value(s.take(i)) <= digits_value(s),
    decreases s.len() - i,
{
    if i < s.len() {
        lemma_digits_grow(s, i + 1);
        assert(s.take(i + 1).drop_last() =~= s.take(i));
    } else {
        assert(s.take(i) =~= s);
    }
}

/// The number that the text writes, where it writes one no larger than `max`.
pub fn parse_number(s: &str, max: u64) -> (r: Option<u64>)
    ensures
        match (r, parsed_number(s@, max as nat)) {
            (Some(n), Some(m)) => n == m,
            (None, None) => true,
            _ => false,
        },
{
    let chars = to_chars(s);
    let start: usize = if chars.len() > 0 && chars[0] == '+' { 1 } else { 0 };
    let ghost digits = s@.subrange(start as int, s@.len() as int);
    proof {
        if start == 1 {
            assert(digits =~= s@.drop_first());
        } else {
            assert(digits =~= s@);
        }
    }
    if start == chars.len() {
        return None;
    }
    let mut i: usize = start;
    let mut value: u64 = 0;
    while i < chars.len()
        invariant
            start <= i <= chars@.len(),
            chars@ == s@,
            digits == s@.subrange(start as int, s@.len() as int),
            all_digits(digits.take(i - start)),
            value == digits_value(digits.take(i - start)),
            value <= max,
            parsed_number(s@, max as nat) == (if digits.len() > 0 && all_digits(digits)
                && digits_value(digits) <= max {
                Some(digits_value(digits))
            } else {
                None
            }),
        decreases chars@.len() - i,
    {
        let c = chars[i];
        assert(c == digits[i - start]);
        if c < '0' || c > '9' {
            return None;
        }
        let d: u64 = (c as u32 - 48) as u64;
        let ghost next = digits.take(i - start + 1);
        proof {
            assert(next.drop_last() =~= digits.take(i - start));
            assert(digits_value(next) == value * 10 + d);
            if all_digits(digits) {
                lemma_digits_grow(digits, i - start + 1);
            }
        }
        if value > max / 10 || value * 10 > max - d.min(max) || d > max {
            return None;
        }
        value = value * 10 + d;
        i += 1;
    }
    assert(digits.take(digits.len() as int) =~= digits);
    Some(value)
}

/// Whether `a` comes before `b` in dictionary order by code point.
pub fn text_less(a: &str, b: &str) -> (r: bool)
    ensures
        r == text_before(a@, b@),
{
    let x = to_chars(a);
    let y = to_chars(b);
    let mut i: usize = 0;
    assert(a@.subrange(0, a@.len() as int) =~= a@);
    assert(b@.subrange(0, b@.len() as int) =~= b@);
    loop
        invariant
            i <= x@.len(),
            i <= y@.len(),
            x@ == a@,
            y@ == b@,
            text_before(a@, b@) == text_before(
                a@.subrange(i as int, a@.len() as int),
                b@.subrange(i as int, b@.len() as int),
            ),
        decreases x@.len() - i,
    {
        let ghost ra = a@.subrange(i as int, a@.len() as int);
        let ghost rb = b@.subrange(i as int, b@.len() as int);
        if i == y.len() {
            return false;
        }
        if i == x.len() {
            return true;
        }
        assert(ra[0] == x@[i as int] && rb[0] == y@[i as int]);
        if x[i] != y[i] {
            return x[i] < y[i];
        }
        assert(ra.drop_first() =~= a@.subrange(i + 1, a@.len() as int));
        assert(rb.drop_first() =~= b@.subrange(i + 1, b@.len() as int));
        i += 1;
    }
}

/// The lines of the text.
pub fn lines(s: &str) -> (r: Vec<String>)
    ensures
        texts(r@) == lines_of(s@),
{
    let parts = split(s, '\n');
    let mut out: Vec<String> = Vec::new();
    let n: usize = parts.len();
    let kept: usize = if parts[n - 1].as_str().unicode_len() == 0 { n - 1 } else { n };
    let mut i: usize = 0;
    while i < kept
        invariant
            i <= kept <= n,
            n == parts@.len(),
            out@.len() == i,
            forall|k: int| 0 <= k < i ==> #[trigger] out@[k]@ == without_carriage_return(
                parts@[k]@,
                k + 1 < n,
            ),
        decreases kept - i,
    {
        let piece = &parts[i];
        if i + 1 < n && piece.as_str().unicode_len() > 0 && piece.as_str().get_char(
            piece.as_str().unicode_len() - 1,
        ) == '\r' {
            let cut = piece.as_str().substring_char(0, piece.as_str().unicode_len() - 1).to_string();
            assert(cut@ =~= piece@.drop_last());
            out.push(cut);
        } else {
            out.push(piece.clone());
        }
        i += 1;
    }
    proof {
        let all = split_on(s@, '\n');
        let kept_parts = if all.last().len() == 0 { all.drop_last() } else { all };
        assert(texts(out@) =~= lines_of(s@));
    }
    out
}

/// Where the text that is left after trimming begins and ends.
pub proof fn lemma_trimmed_part(s: Seq<char>) -> (r: (int, int))
    ensures
        0 <= r.0 <= r.1 <= s.len(),
        trimmed(s) == s.subrange(r.0, r.1),
        forall|i: int| 0 <= i < r.0 ==> is_white(#[trigger] s[i]),
        forall|i: int| r.1 <= i < s.len() ==> is_white(#[trigger] s[i]),
        r.0 < r.1 ==> !is_white(s[r.0]) && !is_white(s[r.1 - 1]),
{
    let a = lemma_trimmed_start_part(s);
    let t = trimmed_start(s);
    let b = lemma_trimmed_end_part(t);
    assert(t.subrange(0, b) =~= s.subrange(a, a + b));
    assert forall|i: int| a + b <= i < s.len() implies is_white(#[trigger] s[i]) by {
        assert(t[i - a] == s[i]);
    }
    if b > 0 {
        assert(t[0] == s[a]);
        assert(t[b - 1] == s[a + b - 1]);
    }
    (a, a + b)
}

proof fn lemma_trimmed_start_part(s: Seq<char>) -> (a: int)
    ensures
        0 <= a <= s.len(),
        trimmed_start(s) == s.subrange(a, s.len() as int),
        forall|i: int| 0 <= i < a ==> is_white(#[trigger] s[i]),
        a < s.len() ==> !is_white(s[a]),
    decreases s.len(),
{
    if s.len() > 0 && is_white(s[0]) {
        let t = s.drop_first();
        let a = lemma_trimmed_start_part(t);
        assert(t.subrange(a, t.len() as int) =~= s.subrange(a + 1, s.len() as int));
        assert forall|i: int| 0 <= i < a + 1 implies is_white(#[trigger] s[i]) by {
            if i > 0 {
                assert(t[i - 1] == s[i]);
            }
        }
        if a < t.len() {
            assert(t[a] == s[a + 1]);
        }
        a + 1
    } else {
        assert(s.subrange(0, s.len() as int) =~= s);
        0
    }
}

proof fn lemma_trimmed_end_part(s: Seq<char>) -> (b: int)
    ensures
        0 <= b <= s.len(),
        trimmed_end(s) == s.subrange(0, b),
        forall|i: int| b <= i < s.len() ==> is_white(#[trigger] s[i]),
        b > 0 ==> !is_white(s[b - 1]),
    decreases s.len(),
{
    if s.len() > 0 && is_white(s.last()) {
        let t = s.drop_last();
        let b = lemma_trimmed_end_part(t);
        assert(t.subrange(0, b) =~= s.subrange(0, b));
        assert forall|i: int| b <= i < s.len() implies is_white(#[trigger] s[i]) by {
            if i < t.len() {
                assert(t[i] == s[i]);
            }
        }
        b
    } else {
        assert(s.subrange(0, s.len() as int) =~= s);
        s.len() as int
    }
}

/// A text's middle part, with white space alone before and after it and none
/// at its own ends, is what trimming leaves.
pub proof fn trimming_takes_white_space_alone(s: Seq<char>, a: int, b: int)
    requires
        0 <= a <= b <= s.len(),
        forall|i: int| 0 <= i < a ==> is_white(#[trigger] s[i]),
        forall|i: int| b <= i < s.len() ==> is_white(#[trigger] s[i]),
        a < b ==> !is_white(s[a]) && !is_white(s[b - 1]),
    ensures
        trimmed(s) == s.subrange(a, b),
{
    let (c, d) = lemma_trimmed_part(s);
    if a < b {
        assert(c == a) by {
            if c < a {
                if c < d {
                    assert(is_white(s[c]));
                } else {
                    assert(is_white(s[a]));
                }
            } else if c > a {
                assert(is_white(s[a]));
            }
        }
        assert(d == b) by {
            if d > b {
                assert(is_white(s[d - 1]));
            } else if d < b {
                assert(is_white(s[b - 1]));
            }
        }
    } else {
        if c < d {
            if c < a {
                assert(is_white(s[c]));
            } else {
                assert(is_white(s[c]));
            }
        }
        assert(s.subrange(c, d) =~= s.subrange(a, b));
    }
}

/// Trimming a trimmed text changes nothing.
pub proof fn trimming_is_idempotent(s: Seq<char>)
    ensures
        trimmed(trimmed(s)) == trimmed(s),
{
    let (a, b) = lemma_trimmed_part(s);
    let t = trimmed(s);
    if t.len() > 0 {
        assert(t[0] == s[a]);
        assert(t[t.len() - 1] == s[b - 1]);
    }
    trimming_takes_white_space_alone(t, 0, t.len() as int);
    assert(t.subrange(0, t.len() as int) =~= t);
}

/// White space at the end of a text does not count for what trimming leaves.
pub proof fn lemma_trimmed_without_last(s: Seq<char>)
    requires
        s.len() > 0,
        is_white(s.last()),
    ensures
        trimmed(s.drop_last()) == trimmed(s),
{
    let t = s.drop_last();
    let (a, b) = lemma_trimmed_part(t);
    assert forall|i: int| 0 <= i < a implies is_white(#[trigger] s[i]) by {
        assert(t[i] == s[i]);
    }
    assert forall|i: int| b <= i < s.len() implies is_white(#[trigger] s[i]) by {
        if i < t.len() {
            assert(t[i] == s[i]);
        }
    }
    trimming_takes_white_space_alone(s, a, b);
    assert(s.subrange(a, b) =~= t.subrange(a, b));
}

/// The pieces of a text, joined by what they were split at, are the text again.
pub proof fn pieces_join_back(s: Seq<char>, sep: char)
    ensures
        split_on(s, sep).len() > 0,
        joined(split_on(s, sep), seq![sep]) == s,
    decreases s.len(),
{
    let all = split_on(s, sep);
    if s.len() == 0 {
        assert(s =~= Seq::empty());
    } else {
        let head = s.drop_last();
        pieces_join_back(head, sep);
        let rest = split_on(head, sep);
        if s.last() == sep {
            assert(all.drop_last() =~= rest);
            assert(joined(all, seq![sep]) =~= head + seq![sep] + Seq::<char>::empty());
            assert(head + seq![sep] + Seq::<char>::empty() =~= s);
        } else {
            assert(all.drop_last() =~= rest.drop_last());
            assert(all.last() == rest.last().push(s.last()));
            if rest.len() == 1 {
                assert(head.push(s.last()) =~= s);
            } else {
                let front = joined(rest.drop_last(), seq![sep]);
                assert(front + seq![sep] + rest.last().push(s.last()) =~= (front + seq![sep]
                    + rest.last()).push(s.last()));
                assert(head.push(s.last()) =~= s);
            }
        }
    }
}

/// No piece of a text holds what the text was split at.
pub proof fn pieces_are_whole(s: Seq<char>, sep: char, k: int, i: int)
    requires
        0 <= k < split_on(s, sep).len(),
        0 <= i < split_on(s, sep)[k].len(),
    ensures
        split_on(s, sep)[k][i] != sep,
    decreases s.len(),
{
    if s.len() > 0 {
        let head = s.drop_last();
        pieces_join_back(head, sep);
        let rest = split_on(head, sep);
        if s.last() == sep {
            if k < rest.len() {
                pieces_are_whole(head, sep, k, i);
            }
        } else if k < rest.len() - 1 || i < rest.last().len() {
            pieces_are_whole(head, sep, k, i);
        }
    }
}

/// Splitting two texts with the separator between them gives the pieces of the
/// one, then those of the other.
pub proof fn splitting_goes_piece_by_piece(a: Seq<char>, sep: char, b: Seq<char>)
    ensures
        split_on(a + seq![sep] + b, sep) == split_on(a, sep) + split_on(b, sep),
    decreases b.len(),
{
    let s = a + seq![sep] + b;
    let x = split_on(a, sep);
    if b.len() == 0 {
        assert(s.drop_last() =~= a);
        assert(split_on(b, sep) =~= seq![Seq::<char>::empty()]);
        assert(x.push(Seq::empty()) =~= x + split_on(b, sep));
    } else {
        splitting_goes_piece_by_piece(a, sep, b.drop_last());
        pieces_join_back(b.drop_last(), sep);
        assert(s.drop_last() =~= a + seq![sep] + b.drop_last());
        let y = split_on(b.drop_last(), sep);
        assert(s.last() == b.last());
        assert((x + y).last() == y.last());
        assert(split_on(s, sep) =~= x + split_on(b, sep));
    }
}

/// A text without the separator is one piece.
pub proof fn unsplit_text_is_one_piece(s: Seq<char>, sep: char)
    requires
        forall|i: int| 0 <= i < s.len() ==> #[trigger] s[i] != sep,
    ensures
        split_on(s, sep) == seq![s],
    decreases s.len(),
{
    if s.len() > 0 {
        assert(s[s.len() - 1] != sep);
        unsplit_text_is_one_piece(s.drop_last(), sep);
        assert(s.drop_last().push(s.last()) =~= s);
        assert(split_on(s, sep) =~= seq![s]);
    } else {
        assert(split_on(s, sep) =~= seq![s]) by {
            assert(s =~= Seq::empty());
        }
    }
}

/// Joining two lists of parts puts one separator between them.
pub proof fn joining_goes_part_by_part(a: Seq<Seq<char>>, b: Seq<Seq<char>>, sep: Seq<char>)
    requires
        a.len() > 0,
        b.len() > 0,
    ensures
        joined(a + b, sep) == joined(a, sep) + sep + joined(b, sep),
    decreases b.len(),
{
    assert((a + b).drop_last() =~= a + b.drop_last());
    if b.len() == 1 {
        assert(a + b.drop_last() =~= a);
    } else {
        joining_goes_part_by_part(a, b.drop_last(), sep);
        let l = joined(a, sep);
        let r = joined(b.drop_last(), sep);
        assert((l + sep + r) + sep + b.last() =~= l + sep + (r + sep + b.last()));
    }
}

/// A number written in decimal is read as that number.
pub proof fn decimal_reads_back(n: nat, max: nat)
    requires
        n <= max,
    ensures
        all_digits(decimal(n)),
        decimal(n).len() > 0,
        digits_value(decimal(n)) == n,
        parsed_number(decimal(n), max) == Some(n),
    decreases n,
{
    if n < 10 {
        let none = decimal(n).drop_last();
        assert(none.len() == 0);
        assert(digits_value(none) == 0);
        assert(decimal(n).last() == digit(n));
        assert(digit(n) as nat == 48 + n);
        assert(digits_value(decimal(n)) == n);
    } else {
        decimal_reads_back(n / 10, max);
        assert(decimal(n).drop_last() =~= decimal(n / 10));
        assert(decimal(n).last() == digit(n % 10));
        assert forall|i: int| 0 <= i < decimal(n).len() implies '0' <= #[trigger] decimal(n)[i]
            && decimal(n)[i] <= '9' by {
            if i < decimal(n / 10).len() {
                assert(decimal(n)[i] == decimal(n / 10)[i]);
            }
        }
        assert(digit(n % 10) as nat == 48 + n % 10);
        assert(n == (n / 10) * 10 + n % 10);
        assert(digits_value(decimal(n)) == n);
    }
    assert(decimal(n)[0] != '+');
}

/// Two numbers written alike are the same.
pub proof fn decimals_differ(a: nat, b: nat)
    requires
        decimal(a) == decimal(b),
    ensures
        a == b,
{
    decimal_reads_back(a, a);
    decimal_reads_back(b, b);
}

/// Replacing goes from the left: what stands before the first occurrence stays,
/// the occurrence is replaced, and the rest is dealt with likewise.
pub proof fn replacing_goes_from_the_left(
    a: Seq<char>,
    part: Seq<char>,
    b: Seq<char>,
    by: Seq<char>,
)
    requires
        part.len() > 0,
        forall|i: int| 0 <= i < a.len() ==> #[trigger] a[i] != part[0],
    ensures
        part_replaced(a + part + b, part, by) == a + by + part_replaced(b, part, by),
    decreases a.len(),
{
    let s = a + part + b;
    if a.len() == 0 {
        assert(s =~= part + b);
        assert(s.subrange(0, part.len() as int) =~= part);
        assert(s.subrange(part.len() as int, s.len() as int) =~= b);
        assert(a + by =~= by);
    } else {
        assert(!has_prefix(s, part)) by {
            if has_prefix(s, part) {
                assert(s.subrange(0, part.len() as int)[0] == s[0]);
                assert(s[0] == a[0]);
            }
        }
        let t = a.drop_first();
        assert forall|i: int| 0 <= i < t.len() implies #[trigger] t[i] != part[0] by {
            assert(t[i] == a[i + 1]);
        }
        replacing_goes_from_the_left(t, part, b, by);
        assert(s.drop_first() =~= t + part + b);
        assert(seq![s[0]] + (t + by + part_replaced(b, part, by)) =~= a + by + part_replaced(
            b,
            part,
            by,
        ));
    }
}

/// A text in which the first character of the part never stands is left alone.
pub proof fn nothing_to_replace_changes_nothing(s: Seq<char>, part: Seq<char>, by: Seq<char>)
    requires
        part.len() > 0,
        forall|i: int| 0 <= i < s.len() ==> #[trigger] s[i] != part[0],
    ensures
        part_replaced(s, part, by) == s,
    decreases s.len(),
{
    if s.len() > 0 {
        assert(!has_prefix(s, part)) by {
            if has_prefix(s, part) {
                assert(s.subrange(0, part.len() as int)[0] == s[0]);
            }
        }
        let t = s.drop_first();
        assert forall|i: int| 0 <= i < t.len() implies #[trigger] t[i] != part[0] by {
            assert(t[i] == s[i + 1]);
        }
        nothing_to_replace_changes_nothing(t, part, by);
        assert(seq![s[0]] + t =~= s);
    }
}

/// Only the letters from `A` to `Z` have another lower case in ASCII, and
/// lowering twice does what lowering once does.
pub proof fn lowering_touches_capitals_alone(s: Seq<char>, i: int)
    requires
        0 <= i < s.len(),
    ensures
        ascii_lowered(s).len() == s.len(),
        'A' <= s[i] && s[i] <= 'Z' ==> ascii_lowered(s)[i] as u32 == s[i] as u32 + 32,
        !('A' <= s[i] && s[i] <= 'Z') ==> ascii_lowered(s)[i] == s[i],
        ascii_lowered(ascii_lowered(s)) == ascii_lowered(s),
{
    assert(ascii_lowered(ascii_lowered(s)) =~= ascii_lowered(s));
}

/// The parts that hold something are kept, in order; empty ones leave.
pub proof fn empty_parts_leave(a: Seq<Seq<char>>, b: Seq<Seq<char>>, x: Seq<char>)
    ensures
        nonempty_parts(a + b) == nonempty_parts(a) + nonempty_parts(b),
        nonempty_parts(seq![x]) == (if x.len() > 0 {
            seq![x]
        } else {
            Seq::empty()
        }),
    decreases b.len(),
{
    if b.len() == 0 {
        assert(a + b =~= a);
        assert(nonempty_parts(a) + nonempty_parts(b) =~= nonempty_parts(a));
    } else {
        assert((a + b).drop_last() =~= a + b.drop_last());
        empty_parts_leave(a, b.drop_last(), x);
        assert(nonempty_parts(a + b) =~= nonempty_parts(a) + nonempty_parts(b));
    }
    assert(seq![x].drop_last() =~= Seq::empty());
    assert(nonempty_parts(Seq::<Seq<char>>::empty()) =~= Seq::empty());
    assert(nonempty_parts(seq![x]) =~= if x.len() > 0 {
        seq![x]
    } else {
        Seq::empty()
    });
}

/// One part joined is that part, and no part is nothing.
pub proof fn single_part_is_joined_as_it_is(x: Seq<char>, sep: Seq<char>)
    ensures
        joined(seq![x], sep) == x,
        joined(Seq::empty(), sep) == Seq::<char>::empty(),
{
}

/// The first line of a text is what stands before the first line feed, without
/// a carriage return at its end, and the others are the lines of the rest.
pub proof fn lines_are_cut_at_line_feeds(a: Seq<char>, b: Seq<char>)
    requires
        forall|i: int| 0 <= i < a.len() ==> #[trigger] a[i] != '\n',
    ensures
        ({
            let first = if a.len() > 0 && a.last() == '\r' {
                a.drop_last()
            } else {
                a
            };
            lines_of(a + seq!['\n'] + b) == seq![first] + lines_of(b)
        }),
        a.len() > 0 ==> lines_of(a) == seq![a],
        lines_of(Seq::empty()) == Seq::<Seq<char>>::empty(),
{
    splitting_goes_piece_by_piece(a, '\n', b);
    unsplit_text_is_one_piece(a, '\n');
    pieces_join_back(b, '\n');
    let none = Seq::<char>::empty();
    unsplit_text_is_one_piece(none, '\n');
    assert(lines_of(none) =~= Seq::empty());
    let x = split_on(a, '\n');
    let y = split_on(b, '\n');
    let all = x + y;
    assert(all.last() == y.last());
    let first = if a.len() > 0 && a.last() == '\r' {
        a.drop_last()
    } else {
        a
    };
    let whole = lines_of(a + seq!['\n'] + b);
    let want = seq![first] + lines_of(b);
    assert(whole.len() == want.len());
    assert forall|i: int| 0 <= i < whole.len() implies whole[i] == want[i] by {
        if i > 0 {
            assert(all[i] == y[i - 1]);
        } else {
            assert(all[0] == a);
        }
    }
    assert(whole =~= want);
    if a.len() > 0 {
        assert(lines_of(a) =~= seq![a]);
    }
}

/// A unit outside the surrogates is its own character, and a pair of surrogates
/// is the character that it writes; a lone surrogate is none.
pub proof fn utf16_is_read_unit_by_unit(u: u16, low: u16, rest: Seq<u16>)
    ensures
        u < 0xd800 || u > 0xdfff ==> utf16_text(seq![u] + rest) == (match utf16_text(rest) {
            Some(t) => Some(seq![u as char] + t),
            None => None,
        }),
        0xd800 <= u <= 0xdbff && 0xdc00 <= low <= 0xdfff ==> utf16_text(seq![u, low] + rest) == (
        match utf16_text(rest) {
            Some(t) => Some(
                seq![(0x10000 + (u - 0xd800) * 0x400 + (low - 0xdc00)) as char] + t,
            ),
            None => None,
        }),
        0xdc00 <= u <= 0xdfff ==> utf16_text(seq![u] + rest) is None,
        utf16_text(Seq::empty()) == Some(Seq::<char>::empty()),
{
    assert((seq![u] + rest).drop_first() =~= rest);
    assert((seq![u, low] + rest).skip(2) =~= rest);
}

/// Only digits are read as a number, with at most one plus sign in front.
pub proof fn only_digits_are_numbers(s: Seq<char>, max: nat)
    ensures
        parsed_number(seq!['+'] + s, max) == (if s.len() > 0 && all_digits(s) && digits_value(s)
            <= max {
            Some(digits_value(s))
        } else {
            None
        }),
        (exists|i: int| 1 <= i < s.len() && !('0' <= #[trigger] s[i] && s[i] <= '9'))
            ==> parsed_number(s, max) is None,
        s.len() == 0 ==> parsed_number(s, max) is None,
{
    assert((seq!['+'] + s).drop_first() =~= s);
    if exists|i: int| 1 <= i < s.len() && !('0' <= #[trigger] s[i] && s[i] <= '9') {
        let i = choose|i: int| 1 <= i < s.len() && !('0' <= #[trigger] s[i] && s[i] <= '9');
        let t = s.drop_first();
        assert(t[i - 1] == s[i]);
    }
}

/// Digits are read from the left, each ten times the next.
pub proof fn digits_count_from_the_left(s: Seq<char>, d: nat)
    requires
        d < 10,
    ensures
        digits_value(Seq::empty()) == 0,
        digits_value(s.push((48 + d) as char)) == 10 * digits_value(s) + d,
{
    assert(s.push((48 + d) as char).drop_last() =~= s);
    assert(((48 + d) as char) as nat == 48 + d);
}

/// A text begins with each of its beginnings, ends with each of its ends, and
/// holds what stands between.
pub proof fn parts_are_found(a: Seq<char>, part: Seq<char>, b: Seq<char>)
    ensures
        has_prefix(a + b, a),
        has_suffix(a + b, b),
        has_part(a + part + b, part),
        has_prefix(a, part) ==> a.len() >= part.len() && forall|i: int|
            0 <= i < part.len() ==> #[trigger] a[i] == part[i],
{
    let ab = a + b;
    assert(ab.subrange(0, a.len() as int) =~= a);
    assert(ab.subrange(a.len() as int, ab.len() as int) =~= b);
    let s = a + part + b;
    let n = a.len() as int;
    assert(s.subrange(n, n + part.len()) =~= part);
    assert(occurs_at(s, part, n));
    if has_prefix(a, part) {
        let head = a.subrange(0, part.len() as int);
        assert forall|i: int| 0 <= i < part.len() implies #[trigger] a[i] == part[i] by {
            assert(head[i] == a[i]);
        }
    }
}

/// Text in UTF-8 is decoded as it was written.
pub proof fn encoded_text_is_decoded(t: Seq<char>)
    ensures
        lossy_text(vstd::utf8::encode_utf8(t)) == t,
{
    vstd::utf8::encode_utf8_valid_utf8(t);
    vstd::utf8::encode_utf8_decode_utf8(t);
}

/// Replacing a character touches no other.
pub proof fn one_character_is_replaced(s: Seq<char>, from: char, to: char, i: int)
    requires
        0 <= i < s.len(),
    ensures
        char_replaced(s, from, to).len() == s.len(),
        s[i] == from ==> char_replaced(s, from, to)[i] == to,
        s[i] != from ==> char_replaced(s, from, to)[i] == s[i],
{
}

/// Spaces, tabs, line feeds and carriage returns are white space; letters,
/// digits and the signs of ASCII are not.
pub proof fn usual_white_space_is_white(c: char)
    ensures
        is_white(' ') && is_white('\t') && is_white('\n') && is_white('\r'),
        0x20 < c as u32 && (c as u32) < 0x7f ==> !is_white(c),
        c as u32 == 0x85 || c as u32 == 0xa0 || c as u32 == 0x3000 || c as u32 == 0x2028 || c as u32
            == 0x2029 ==> is_white(c),
{
}

/// The texts of a list are quoted each, in order, between brackets.
pub proof fn lists_are_quoted_in_order(parts: Seq<Seq<char>>, x: Seq<char>)
    requires
        parts.len() > 0,
    ensures
        quoted_list(seq![x]) == "["@ + quoted(x) + "]"@,
        quoted_list(parts.push(x)) == quoted_list(parts).drop_last() + ", "@ + quoted(x) + "]"@,
{
    reveal_strlit("]");
    let one = Seq::new(1, |i: int| quoted(seq![x][i]));
    assert(one =~= seq![quoted(x)]);
    let a = Seq::new(parts.len(), |i: int| quoted(parts[i]));
    let b = Seq::new(parts.push(x).len(), |i: int| quoted(parts.push(x)[i]));
    assert(b.drop_last() =~= a);
    assert(b.last() == quoted(x));
    assert(quoted_list(parts).drop_last() =~= "["@ + joined(a, ", "@));
    assert(quoted_list(parts.push(x)) =~= "["@ + joined(a, ", "@) + ", "@ + quoted(x) + "]"@);
}

} // verus!
