//! Text helpers: comparing strings, decimal numbers in text, and lists that
//! are searched by key.

use vstd::prelude::*;

verus! {

/// Whether every character is a decimal digit.
pub open spec fn all_digits(s: Seq<char>) -> bool {
    forall|i: int| 0 <= i < s.len() ==> '0' <= #[trigger] s[i] <= '9'
}

/// The number that a sequence of decimal digits spells.
pub open spec fn digits_value(s: Seq<char>) -> nat
    decreases s.len(),
{
    if s.len() == 0 {
        0
    } else {
        digits_value(s.drop_last()) * 10 + ((s.last() as u32 - '0' as u32) as nat)
    }
}

/// The digits of a decimal number in text, without a sign: what is left of
/// `s` behind one leading `+`.
pub open spec fn unsigned_digits(s: Seq<char>) -> Seq<char> {
    if s.len() > 0 && s[0] == '+' {
        s.subrange(1, s.len() as int)
    } else {
        s
    }
}

/// The unsigned number that a text spells: decimal digits, at least one,
/// behind at most one `+`, and no larger than `max`.
pub open spec fn spec_parse_unsigned(s: Seq<char>, max: nat) -> Option<nat> {
    let body = unsigned_digits(s);
    if body.len() > 0 && all_digits(body) && digits_value(body) <= max {
        Some(digits_value(body))
    } else {
        None
    }
}

/// The `u64` that a text spells, if it spells one.
pub open spec fn spec_parse_u64(s: Seq<char>) -> Option<u64> {
    match spec_parse_unsigned(s, u64::MAX as nat) {
        Some(n) => Some(n as u64),
        None => None,
    }
}

/// The `u32` that a text spells, if it spells one.
pub open spec fn spec_parse_u32(s: Seq<char>) -> Option<u32> {
    match spec_parse_unsigned(s, u32::MAX as nat) {
        Some(n) => Some(n as u32),
        None => None,
    }
}

/// The `i64` that a text spells, if it spells one: decimal digits, at least
/// one, behind at most one `+` or `-`, within the range of the type.
pub open spec fn spec_parse_i64(s: Seq<char>) -> Option<i64> {
    if s.len() > 0 && s[0] == '-' {
        let body = s.subrange(1, s.len() as int);
        if body.len() > 0 && all_digits(body) && digits_value(body) <= 0x8000_0000_0000_0000 {
            Some((0 - digits_value(body)) as i64)
        } else {
            None
        }
    } else {
        match spec_parse_unsigned(s, i64::MAX as nat) {
            Some(n) => Some(n as i64),
            None => None,
        }
    }
}

/// The decimal digits of a number, without leading zeros.
pub open spec fn decimal_chars(n: nat) -> Seq<char>
    decreases n,
{
    if n < 10 {
        seq![(('0' as u32 + n) as u32) as char]
    } else {
        decimal_chars(n / 10).push((('0' as u32 + n % 10) as u32) as char)
    }
}

/// Calls `str::parse::<u64>`, which accepts decimal digits behind at most one
/// `+` and rejects everything else, an overflow included.
#[verifier::external_body]
pub(crate) fn parse_u64(s: &str) -> (n: Option<u64>)
    ensures
        n == spec_parse_u64(s@),
{
    s.parse::<u64>().ok()
}

/// Calls `str::parse::<u32>`, which accepts decimal digits behind at most one
/// `+` and rejects everything else, an overflow included.
#[verifier::external_body]
pub(crate) fn parse_u32(s: &str) -> (n: Option<u32>)
    ensures
        n == spec_parse_u32(s@),
{
    s.parse::<u32>().ok()
}

/// Calls `str::parse::<i64>`, which accepts decimal digits behind at most one
/// `+` or `-` and rejects everything else, an overflow included.
#[verifier::external_body]
pub(crate) fn parse_i64(s: &str) -> (n: Option<i64>)
    ensures
        n == spec_parse_i64(s@),
{
    s.parse::<i64>().ok()
}

/// Calls `u64::to_string`, which gives the decimal digits of the number.
#[verifier::external_body]
pub(crate) fn u64_to_string(n: u64) -> (text: String)
    ensures
        text@ == decimal_chars(n as nat),
{
    n.to_string()
}

/// A text with every occurrence of one character replaced by a text.
pub open spec fn replaced(s: Seq<char>, from: char, to: Seq<char>) -> Seq<char>
    decreases s.len(),
{
    if s.len() == 0 {
        Seq::empty()
    } else if s.last() == from {
        replaced(s.drop_last(), from, to) + to
    } else {
        replaced(s.drop_last(), from, to).push(s.last())
    }
}

/// Calls `str::replace` with a character as the pattern, which replaces
/// every occurrence of the character.
#[verifier::external_body]
pub(crate) fn replace_char(s: &str, from: char, to: &str) -> (out: String)
    ensures
        out@ == replaced(s@, from, to@),
{
    s.replace(from, to)
}

/// Whether a character is whitespace: one that Unicode gives the property
/// `White_Space`.
pub open spec fn is_white_space(c: char) -> bool {
    let n = c as u32;
    (0x09 <= n <= 0x0d) || n == 0x20 || n == 0x85 || n == 0xa0 || n == 0x1680 || (0x2000 <= n
        <= 0x200a) || n == 0x2028 || n == 0x2029 || n == 0x202f || n == 0x205f || n == 0x3000
}

/// A text without the whitespace at its start.
pub open spec fn trimmed_start(s: Seq<char>) -> Seq<char>
    decreases s.len(),
{
    if s.len() > 0 && is_white_space(s[0]) {
        trimmed_start(s.subrange(1, s.len() as int))
    } else {
        s
    }
}

/// A text without the whitespace at its end.
pub open spec fn trimmed_end(s: Seq<char>) -> Seq<char>
    decreases s.len(),
{
    if s.len() > 0 && is_white_space(s.last()) {
        trimmed_end(s.drop_last())
    } else {
        s
    }
}

/// A text without the whitespace at its start and at its end.
pub open spec fn trimmed(s: Seq<char>) -> Seq<char> {
    trimmed_end(trimmed_start(s))
}

/// Calls `str::trim`, which removes the whitespace at the start and at the
/// end of a text.
#[verifier::external_body]
pub(crate) fn trim(s: &str) -> (out: &str)
    ensures
        out@ == trimmed(s@),
{
    s.trim()
}

/// Joins three texts, by `format!`.
#[verifier::external_body]
pub(crate) fn concat3(a: &str, b: &str, c: &str) -> (out: String)
    ensures
        out@ == a@ + b@ + c@,
{
    format!("{a}{b}{c}")
}

/// Whether two byte strings are the same.
pub fn bytes_eq(a: &[u8], b: &[u8]) -> (same: bool)
    ensures
        same == (a@ == b@),
{
    if a.len() != b.len() {
        return false;
    }
    let mut i: usize = 0;
    while i < a.len()
        invariant
            i <= a.len(),
            a.len() == b.len(),
            forall|j: int| 0 <= j < i ==> a@[j] == b@[j],
        decreases a.len() - i,
    {
        if a[i] != b[i] {
            return false;
        }
        i += 1;
    }
    assert(a@ =~= b@);
    true
}

/// Whether two texts are the same.
pub fn str_eq(a: &str, b: &str) -> (same: bool)
    ensures
        same == (a@ == b@),
{
    broadcast use vstd::utf8::encode_utf8_decode_utf8;

    let same = bytes_eq(a.as_bytes(), b.as_bytes());
    proof {
        if same {
            assert(vstd::utf8::decode_utf8(vstd::utf8::encode_utf8(a@)) == a@);
            assert(vstd::utf8::decode_utf8(vstd::utf8::encode_utf8(b@)) == b@);
        }
    }
    same
}

/// Whether two optional texts are the same.
pub fn opt_str_eq(a: &Option<String>, b: &Option<String>) -> (same: bool)
    ensures
        same == (opt_text(*a) == opt_text(*b)),
{
    match (a, b) {
        (Some(x), Some(y)) => str_eq(x.as_str(), y.as_str()),
        (None, None) => true,
        _ => false,
    }
}

/// The characters of an optional text.
pub open spec fn opt_text(s: Option<String>) -> Option<Seq<char>> {
    match s {
        Some(t) => Some(t@),
        None => None,
    }
}

/// A copy of an optional text.
pub fn clone_opt_string(s: &Option<String>) -> (copy: Option<String>)
    ensures
        opt_text(copy) == opt_text(*s),
{
    match s {
        Some(t) => Some(t.clone()),
        None => None,
    }
}

/// The place of the last occurrence of a key in a sequence of keys.
pub open spec fn last_index_of<K>(keys: Seq<K>, key: K) -> Option<int>
    decreases keys.len(),
{
    if keys.len() == 0 {
        None
    } else if keys.last() == key {
        Some(keys.len() - 1)
    } else {
        last_index_of(keys.drop_last(), key)
    }
}

/// Where `last_index_of` finds a key, the key stands there and nowhere
/// behind; where it finds none, the key stands nowhere.
pub proof fn lemma_last_index_of<K>(keys: Seq<K>, key: K)
    ensures
        match last_index_of(keys, key) {
            Some(i) => 0 <= i < keys.len() && keys[i] == key && forall|j: int|
                i < j < keys.len() ==> keys[j] != key,
            None => forall|j: int| 0 <= j < keys.len() ==> keys[j] != key,
        },
    decreases keys.len(),
{
    if keys.len() > 0 && keys.last() != key {
        let front = keys.drop_last();
        lemma_last_index_of(front, key);
        assert forall|j: int| 0 <= j < front.len() implies front[j] == keys[j] by {}
        match last_index_of(front, key) {
            Some(i) => {
                assert forall|j: int| i < j < keys.len() implies keys[j] != key by {
                    if j < front.len() {
                        assert(front[j] != key);
                    }
                }
            },
            None => {
                assert forall|j: int| 0 <= j < keys.len() implies keys[j] != key by {
                    if j < front.len() {
                        assert(front[j] != key);
                    }
                }
            },
        }
    }
}

/// Maps every item of a sequence, or gives `None` where one item maps to
/// `None`.
pub open spec fn try_map<A, B>(items: Seq<A>, f: spec_fn(A) -> Option<B>) -> Option<Seq<B>>
    decreases items.len(),
{
    if items.len() == 0 {
        Some(Seq::empty())
    } else {
        match (try_map(items.drop_last(), f), f(items.last())) {
            (Some(front), Some(last)) => Some(front.push(last)),
            _ => None,
        }
    }
}

/// Where one item maps to `None`, so does the sequence.
pub proof fn lemma_try_map_none<A, B>(items: Seq<A>, f: spec_fn(A) -> Option<B>, i: int)
    requires
        0 <= i < items.len(),
        f(items[i]) is None,
    ensures
        try_map(items, f) is None,
    decreases items.len(),
{
    if i < items.len() - 1 {
        lemma_try_map_none(items.drop_last(), f, i);
    }
}

/// Folds a step that may fail over a sequence, from the front: `None` where
/// a step fails.
pub open spec fn try_fold<A, B>(items: Seq<A>, init: B, f: spec_fn(B, A) -> Option<B>) -> Option<B>
    decreases items.len(),
{
    if items.len() == 0 {
        Some(init)
    } else {
        match try_fold(items.drop_last(), init, f) {
            Some(acc) => f(acc, items.last()),
            None => None,
        }
    }
}

/// Where the fold fails on a prefix, it fails on the sequence.
pub proof fn lemma_try_fold_none<A, B>(
    items: Seq<A>,
    init: B,
    f: spec_fn(B, A) -> Option<B>,
    i: int,
)
    requires
        0 <= i <= items.len(),
        try_fold(items.take(i), init, f) is None,
    ensures
        try_fold(items, init, f) is None,
    decreases items.len() - i,
{
    if i < items.len() {
        assert(items.take(i + 1).drop_last() =~= items.take(i));
        lemma_try_fold_none(items, init, f, i + 1);
    } else {
        assert(items.take(i) =~= items);
    }
}

/// The names of a list of named values.
pub open spec fn names_of<V>(list: Seq<(Seq<char>, V)>) -> Seq<Seq<char>> {
    Seq::new(list.len(), |i: int| list[i].0)
}

/// The value that a list holds under a name: that of the last pair with it.
pub open spec fn named<V>(list: Seq<(Seq<char>, V)>, name: Seq<char>) -> Option<V> {
    match last_index_of(names_of(list), name) {
        Some(i) => Some(list[i].1),
        None => None,
    }
}

/// Puts a value under a name: in the place of the pair with that name or,
/// where there is none, at the end.
pub open spec fn put_named<V>(list: Seq<(Seq<char>, V)>, name: Seq<char>, value: V) -> Seq<
    (Seq<char>, V),
> {
    match last_index_of(names_of(list), name) {
        Some(i) => list.update(i, (name, value)),
        None => list.push((name, value)),
    }
}

/// The keys of a list of pairs whose keys are texts.
pub open spec fn text_keys<V>(list: Seq<(String, V)>) -> Seq<Seq<char>> {
    Seq::new(list.len(), |i: int| list[i].0@)
}

/// The keys of a list of pairs whose keys are numbers.
pub open spec fn number_keys<V>(list: Seq<(u64, V)>) -> Seq<u64> {
    Seq::new(list.len(), |i: int| list[i].0)
}

/// The place of the last pair with this key.
pub fn find_text_key<V>(list: &Vec<(String, V)>, key: &str) -> (place: Option<usize>)
    ensures
        match place {
            Some(i) => last_index_of(text_keys(list@), key@) == Some(i as int) && i < list.len(),
            None => last_index_of(text_keys(list@), key@) is None,
        },
{
    let ghost keys = text_keys(list@);
    let mut i: usize = list.len();
    assert(keys.subrange(0, i as int) =~= keys);
    while i > 0
        invariant
            i <= list.len(),
            keys == text_keys(list@),
            last_index_of(keys.subrange(0, i as int), key@) == last_index_of(keys, key@),
        decreases i,
    {
        assert(keys.subrange(0, i as int).drop_last() =~= keys.subrange(0, i - 1));
        i -= 1;
        if str_eq(list[i].0.as_str(), key) {
            return Some(i);
        }
    }
    None
}

/// The place of the last pair with this key.
pub fn find_number_key<V>(list: &Vec<(u64, V)>, key: u64) -> (place: Option<usize>)
    ensures
        match place {
            Some(i) => last_index_of(number_keys(list@), key) == Some(i as int) && i < list.len(),
            None => last_index_of(number_keys(list@), key) is None,
        },
{
    let ghost keys = number_keys(list@);
    let mut i: usize = list.len();
    assert(keys.subrange(0, i as int) =~= keys);
    while i > 0
        invariant
            i <= list.len(),
            keys == number_keys(list@),
            last_index_of(keys.subrange(0, i as int), key) == last_index_of(keys, key),
        decreases i,
    {
        assert(keys.subrange(0, i as int).drop_last() =~= keys.subrange(0, i - 1));
        i -= 1;
        if list[i].0 == key {
            return Some(i);
        }
    }
    None
}

} // verus!
