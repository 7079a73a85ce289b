//! The todo record, its identifiers, label edits, and the checks applied to
//! a todo read back from the todo branch.
use vstd::prelude::*;

use crate::text::{chars_of, push_char};
use vstd::string::StringSliceAdditionalSpecFns;

verus! {

/// Number of characters in a todo id.
pub const ID_LEN: usize = 8;

/// Largest byte length of a single-line field of a loaded todo.
pub const MAX_SINGLE_LINE: usize = 1024;

/// Largest byte length of a multi-line field (a body) of a loaded todo.
pub const MAX_BODY: usize = 65536;

/// The first second chrono's `DateTime<Utc>` holds: January 1 of the year
/// -262143, 00:00:00 UTC.
pub const MIN_UTC_SECS: i64 = -8334601228800;

/// The last second chrono's `DateTime<Utc>` holds: December 31 of the year
/// 262142, 23:59:59 UTC.
pub const MAX_UTC_SECS: i64 = 8210266876799;

/// Whether chrono's `DateTime<Utc>` can represent the instant `secs`
/// seconds after the Unix epoch plus `nanos` nanoseconds: a second within
/// chrono's date range, and `nanos` below one second, or below two in the
/// last second of a minute (a leap second).
pub open spec fn representable(secs: i64, nanos: u32) -> bool {
    &&& MIN_UTC_SECS <= secs <= MAX_UTC_SECS
    &&& (nanos < 1_000_000_000 || (nanos < 2_000_000_000 && (secs as int) % 60 == 59))
}

/// `DateTime::<Utc>::from_timestamp(secs, nanos).is_some()`: it splits
/// `secs` into a day and a second of the day (Euclidean), takes the day only
/// within `NaiveDate::MIN..=NaiveDate::MAX`, and the second with `nanos`
/// only when `nanos` is below one second, or below two when the second is
/// the last of a minute.
#[verifier::external_body]
fn chrono_representable(secs: i64, nanos: u32) -> (b: bool)
    ensures
        b == representable(secs, nanos),
{
    chrono::DateTime::<chrono::Utc>::from_timestamp(secs, nanos).is_some()
}

/// A point in time: seconds since the Unix epoch and the nanoseconds within
/// that second (1_000_000_000 and above during a leap second), always one
/// that chrono's `DateTime<Utc>` can hold.
#[derive(Clone, Copy, Debug, PartialEq, Eq, Structural)]
pub struct Timestamp {
    secs: i64,
    nanos: u32,
}

impl Timestamp {
    #[verifier::type_invariant]
    spec fn inv(self) -> bool {
        representable(self.secs, self.nanos)
    }

    pub closed spec fn spec_secs(self) -> i64 {
        self.secs
    }

    pub closed spec fn spec_nanos(self) -> u32 {
        self.nanos
    }

    /// The instant `secs` seconds and `nanos` nanoseconds after the Unix
    /// epoch; `None` when chrono cannot represent it.
    pub fn new(secs: i64, nanos: u32) -> (t: Option<Timestamp>)
        ensures
            t is Some <==> representable(secs, nanos),
            t matches Some(t) ==> t.spec_secs() == secs && t.spec_nanos() == nanos,
    {
        if chrono_representable(secs, nanos) {
            Some(Timestamp { secs, nanos })
        } else {
            None
        }
    }

    pub fn secs(&self) -> (s: i64)
        ensures
            s == self.spec_secs(),
    {
        self.secs
    }

    pub fn nanos(&self) -> (n: u32)
        ensures
            n == self.spec_nanos(),
    {
        self.nanos
    }

    /// Whether `self` is strictly earlier than `other`.
    pub fn before(&self, other: &Timestamp) -> (b: bool)
        ensures
            b == ts_before(*self, *other),
    {
        self.secs < other.secs || (self.secs == other.secs && self.nanos < other.nanos)
    }
}

/// Strictly earlier in time: chrono orders instants by seconds and then by
/// nanoseconds.
pub open spec fn ts_before(a: Timestamp, b: Timestamp) -> bool {
    a.spec_secs() < b.spec_secs() || (a.spec_secs() == b.spec_secs() && a.spec_nanos()
        < b.spec_nanos())
}

/// What chrono's `to_rfc3339` writes for the instant.
pub uninterp spec fn rfc3339_text(secs: i64, nanos: u32) -> Seq<char>;

/// `DateTime::<Utc>::to_rfc3339` of the instant (which is representable).
#[verifier::external_body]
fn chrono_rfc3339(secs: i64, nanos: u32) -> (s: String)
    requires
        representable(secs, nanos),
    ensures
        s@ == rfc3339_text(secs, nanos),
{
    chrono::DateTime::<chrono::Utc>::from_timestamp(secs, nanos).unwrap().to_rfc3339()
}

/// Whole seconds from the second instant to the first, as chrono's
/// `signed_duration_since(..).num_seconds()` counts them.
pub uninterp spec fn elapsed_secs(secs: i64, nanos: u32, since_secs: i64, since_nanos: u32) -> i64;

/// `signed_duration_since` then `num_seconds` on two representable instants.
#[verifier::external_body]
fn chrono_elapsed(secs: i64, nanos: u32, since_secs: i64, since_nanos: u32) -> (d: i64)
    requires
        representable(secs, nanos),
        representable(since_secs, since_nanos),
    ensures
        d == elapsed_secs(secs, nanos, since_secs, since_nanos),
{
    let a = chrono::DateTime::<chrono::Utc>::from_timestamp(secs, nanos).unwrap();
    let b = chrono::DateTime::<chrono::Utc>::from_timestamp(since_secs, since_nanos).unwrap();
    a.signed_duration_since(b).num_seconds()
}

impl Timestamp {
    /// The instant in RFC 3339 form, as chrono writes it.
    pub fn to_rfc3339(&self) -> (s: String)
        ensures
            s@ == rfc3339_text(self.spec_secs(), self.spec_nanos()),
    {
        proof {
            use_type_invariant(self);
        }
        chrono_rfc3339(self.secs, self.nanos)
    }

    /// Whole seconds from `since` to `self` (negative when `since` is later),
    /// as chrono counts them.
    pub fn seconds_since(&self, since: &Timestamp) -> (d: i64)
        ensures
            d == elapsed_secs(self.spec_secs(), self.spec_nanos(), since.spec_secs(), since.spec_nanos()),
    {
        proof {
            use_type_invariant(self);
            use_type_invariant(since);
        }
        chrono_elapsed(self.secs, self.nanos, since.secs, since.nanos)
    }
}

#[derive(Clone, Copy, Debug, PartialEq, Eq, Structural)]
pub enum Status {
    Open,
    Done,
}

pub struct Comment {
    pub at: Timestamp,
    pub by: String,
    pub body: String,
}

pub struct Todo {
    pub id: String,
    pub title: String,
    pub status: Status,
    pub created: Timestamp,
    pub created_by: String,
    pub done: Option<Timestamp>,
    pub done_by: Option<String>,
    pub labels: Vec<String>,
    pub body: String,
    pub comments: Vec<Comment>,
}

/// The character views of a sequence of strings.
pub open spec fn views(ss: Seq<String>) -> Seq<Seq<char>> {
    ss.map_values(|s: String| s@)
}

/// `'0'..='9'` or `'a'..='f'`.
pub open spec fn is_lower_hex(c: char) -> bool {
    ('0' <= c && c <= '9') || ('a' <= c && c <= 'f')
}

/// A well-formed todo id: exactly eight lowercase hex digits.
pub open spec fn spec_valid_id(s: Seq<char>) -> bool {
    s.len() == ID_LEN && forall|i: int| 0 <= i < s.len() ==> is_lower_hex(#[trigger] s[i])
}

/// True if `s` is a well-formed todo id: exactly `ID_LEN` lowercase hex
/// characters. Ids are written into shell completion output, so anything
/// else (such as `aa$(...)`) is refused.
pub fn is_valid_id(s: &str) -> (b: bool)
    ensures
        b == spec_valid_id(s@),
{
    let v = chars_of(s);
    if v.len() != ID_LEN {
        return false;
    }
    let mut i: usize = 0;
    while i < v.len()
        invariant
            i <= v@.len(),
            v@ == s@,
            forall|j: int| 0 <= j < i ==> is_lower_hex(#[trigger] v@[j]),
        decreases v@.len() - i,
    {
        let c = v[i];
        if !(('0' <= c && c <= '9') || ('a' <= c && c <= 'f')) {
            assert(!is_lower_hex(s@[i as int]));
            return false;
        }
        i += 1;
    }
    true
}

/// A well-formed id is eight bytes long, one per character: the check on
/// characters is the check on bytes that ids are held to.
pub proof fn law_valid_id_is_eight_ascii_bytes(s: &str)
    requires
        spec_valid_id(s@),
    ensures
        s.spec_bytes().len() == ID_LEN,
        forall|i: int| 0 <= i < ID_LEN ==> #[trigger] s.spec_bytes()[i] == s@[i] as u8,
{
    broadcast use vstd::string::group_string_axioms;

    assert(vstd::utf8::is_ascii_chars(s@)) by {
        assert forall|i: int| 0 <= i < s@.len() implies (#[trigger] s@[i]) as nat <= 0x7f by {
            assert(is_lower_hex(s@[i]));
        }
    }
    vstd::utf8::is_ascii_chars_encode_utf8(s@);
}

/// The lowercase hex digit for `n` (`n < 16`).
pub open spec fn hex_digit(n: u8) -> char {
    seq!['0', '1', '2', '3', '4', '5', '6', '7', '8', '9', 'a', 'b', 'c', 'd', 'e', 'f'][n as int]
}

/// Lowercase hex encoding: two digits per byte, high nibble first.
pub open spec fn hex_lower(bytes: Seq<u8>) -> Seq<char>
    decreases bytes.len(),
{
    if bytes.len() == 0 {
        seq![]
    } else {
        seq![hex_digit(bytes[0] >> 4), hex_digit(bytes[0] & 0x0f)] + hex_lower(bytes.drop_first())
    }
}

/// `hex::encode`: each byte as two lowercase hex digits, high nibble first.
#[verifier::external_body]
fn hex_encode(bytes: &Vec<u8>) -> (s: String)
    ensures
        s@ == hex_lower(bytes@),
{
    hex::encode(bytes)
}

/// `fastrand::fill`: overwrites `buf` with random bytes; its length stays.
#[verifier::external_body]
fn fill_random(buf: &mut Vec<u8>)
    ensures
        final(buf)@.len() == old(buf)@.len(),
{
    fastrand::fill(buf.as_mut_slice())
}

pub proof fn lemma_hex_lower(bytes: Seq<u8>)
    ensures
        hex_lower(bytes).len() == 2 * bytes.len(),
        forall|i: int| 0 <= i < hex_lower(bytes).len() ==> is_lower_hex(#[trigger] hex_lower(bytes)[i]),
    decreases bytes.len(),
{
    if bytes.len() > 0 {
        let b = bytes[0];
        assert(b >> 4 < 16 && b & 0x0f < 16) by (bit_vector);
        lemma_hex_lower(bytes.drop_first());
        let h = hex_lower(bytes);
        let t = hex_lower(bytes.drop_first());
        assert forall|i: int| 0 <= i < h.len() implies is_lower_hex(#[trigger] h[i]) by {
            if i >= 2 {
                assert(h[i] == t[i - 2]);
            }
        }
    }
}

/// A fresh random id: four random bytes, hex-encoded.
pub fn random_id() -> (id: String)
    ensures
        spec_valid_id(id@),
{
    let mut bytes: Vec<u8> = Vec::new();
    let mut i: usize = 0;
    while i < ID_LEN / 2
        invariant
            i <= ID_LEN / 2,
            bytes@.len() == i,
        decreases ID_LEN / 2 - i,
    {
        bytes.push(0);
        i += 1;
    }
    fill_random(&mut bytes);
    proof {
        lemma_hex_lower(bytes@);
    }
    hex_encode(&bytes)
}

/// Whether `s` is one of `taken`.
pub fn contains_string(taken: &[String], s: &String) -> (b: bool)
    ensures
        b == views(taken@).contains(s@),
{
    let mut i: usize = 0;
    while i < taken.len()
        invariant
            i <= taken@.len(),
            forall|j: int| 0 <= j < i ==> taken@[j]@ != s@,
        decreases taken@.len() - i,
    {
        if taken[i] == *s {
            assert(views(taken@)[i as int] == s@);
            return true;
        }
        i += 1;
    }
    proof {
        if views(taken@).contains(s@) {
            let j = choose|j: int| 0 <= j < views(taken@).len() && views(taken@)[j] == s@;
            assert(taken@[j]@ == s@);
        }
    }
    false
}

/// The id whose eight hex digits spell `k`.
pub open spec fn counter_id(k: u32) -> Seq<char> {
    seq![
        hex_digit(((k >> 28) & 0xf) as u8),
        hex_digit(((k >> 24) & 0xf) as u8),
        hex_digit(((k >> 20) & 0xf) as u8),
        hex_digit(((k >> 16) & 0xf) as u8),
        hex_digit(((k >> 12) & 0xf) as u8),
        hex_digit(((k >> 8) & 0xf) as u8),
        hex_digit(((k >> 4) & 0xf) as u8),
        hex_digit((k & 0xf) as u8),
    ]
}

pub proof fn lemma_hex_digit(a: u8, b: u8)
    requires
        a < 16,
        b < 16,
    ensures
        is_lower_hex(hex_digit(a)),
        hex_digit(a) == hex_digit(b) ==> a == b,
{
}

pub proof fn lemma_counter_id(k1: u32, k2: u32)
    ensures
        spec_valid_id(counter_id(k1)),
        counter_id(k1) == counter_id(k2) ==> k1 == k2,
{
    assert(((k1 >> 28) & 0xf) < 16 && ((k1 >> 24) & 0xf) < 16 && ((k1 >> 20) & 0xf) < 16 && ((
    k1 >> 16) & 0xf) < 16 && ((k1 >> 12) & 0xf) < 16 && ((k1 >> 8) & 0xf) < 16 && ((k1 >> 4)
        & 0xf) < 16 && (k1 & 0xf) < 16) by (bit_vector);
    assert(((k2 >> 28) & 0xf) < 16 && ((k2 >> 24) & 0xf) < 16 && ((k2 >> 20) & 0xf) < 16 && ((
    k2 >> 16) & 0xf) < 16 && ((k2 >> 12) & 0xf) < 16 && ((k2 >> 8) & 0xf) < 16 && ((k2 >> 4)
        & 0xf) < 16 && (k2 & 0xf) < 16) by (bit_vector);
    let c1 = counter_id(k1);
    let c2 = counter_id(k2);
    lemma_hex_digit(((k1 >> 28) & 0xf) as u8, ((k2 >> 28) & 0xf) as u8);
    lemma_hex_digit(((k1 >> 24) & 0xf) as u8, ((k2 >> 24) & 0xf) as u8);
    lemma_hex_digit(((k1 >> 20) & 0xf) as u8, ((k2 >> 20) & 0xf) as u8);
    lemma_hex_digit(((k1 >> 16) & 0xf) as u8, ((k2 >> 16) & 0xf) as u8);
    lemma_hex_digit(((k1 >> 12) & 0xf) as u8, ((k2 >> 12) & 0xf) as u8);
    lemma_hex_digit(((k1 >> 8) & 0xf) as u8, ((k2 >> 8) & 0xf) as u8);
    lemma_hex_digit(((k1 >> 4) & 0xf) as u8, ((k2 >> 4) & 0xf) as u8);
    lemma_hex_digit((k1 & 0xf) as u8, (k2 & 0xf) as u8);
    assert forall|i: int| 0 <= i < c1.len() implies is_lower_hex(#[trigger] c1[i]) by {}
    if c1 == c2 {
        assert(c1[0] == c2[0] && c1[1] == c2[1] && c1[2] == c2[2] && c1[3] == c2[3]);
        assert(c1[4] == c2[4] && c1[5] == c2[5] && c1[6] == c2[6] && c1[7] == c2[7]);
        assert(((k1 >> 28) & 0xf) == ((k2 >> 28) & 0xf) && ((k1 >> 24) & 0xf) == ((k2 >> 24)
            & 0xf) && ((k1 >> 20) & 0xf) == ((k2 >> 20) & 0xf) && ((k1 >> 16) & 0xf) == ((k2
            >> 16) & 0xf) && ((k1 >> 12) & 0xf) == ((k2 >> 12) & 0xf) && ((k1 >> 8) & 0xf) == ((
        k2 >> 8) & 0xf) && ((k1 >> 4) & 0xf) == ((k2 >> 4) & 0xf) && (k1 & 0xf) == (k2 & 0xf)
            ==> k1 == k2) by (bit_vector);
    }
}

/// The id spelling `k` in eight hex digits.
fn counter_id_string(k: u32) -> (s: String)
    ensures
        s@ == counter_id(k),
{
    let table: Vec<char> = vec!['0', '1', '2', '3', '4', '5', '6', '7', '8', '9', 'a', 'b', 'c', 'd', 'e', 'f'];
    assert(table@ =~= seq!['0', '1', '2', '3', '4', '5', '6', '7', '8', '9', 'a', 'b', 'c', 'd', 'e', 'f']);
    let mut s = String::new();
    let mut shift: u32 = 32;
    while shift > 0
        invariant
            shift % 4 == 0,
            shift <= 32,
            table@ == seq!['0', '1', '2', '3', '4', '5', '6', '7', '8', '9', 'a', 'b', 'c', 'd', 'e', 'f'],
            s@.len() == (32 - shift) / 4,
            forall|i: int| 0 <= i < s@.len() ==> #[trigger] s@[i] == counter_id(k)[i],
        decreases shift,
    {
        shift = shift - 4;
        let d = (k >> shift) & 0xf;
        assert(d < 16) by (bit_vector)
            requires
                d == (k >> shift) & 0xf,
        ;
        let ghost i = (32 - shift) / 4 - 1;
        proof {
            if i == 0 { assert(shift == 28); }
            if i == 1 { assert(shift == 24); }
            if i == 2 { assert(shift == 20); }
            if i == 3 { assert(shift == 16); }
            if i == 4 { assert(shift == 12); }
            if i == 5 { assert(shift == 8); }
            if i == 6 { assert(shift == 4); }
            if i == 7 { assert(shift == 0); assert(k >> 0u32 == k) by (bit_vector); }
        }
        push_char(&mut s, table[d as usize]);
    }
    assert(s@ =~= counter_id(k));
    s
}

/// Pigeonhole: `m` distinct values that all occur in `s` need `m <= s.len()`.
pub proof fn lemma_distinct_within(f: spec_fn(int) -> Seq<char>, m: int, s: Seq<Seq<char>>)
    requires
        0 <= m,
        forall|i: int, j: int| 0 <= i < j < m ==> #[trigger] f(i) != #[trigger] f(j),
        forall|i: int| 0 <= i < m ==> s.contains(#[trigger] f(i)),
    ensures
        m <= s.len(),
{
    let cs = Seq::new(m as nat, f);
    assert(cs.no_duplicates()) by {
        assert forall|i: int, j: int| 0 <= i < cs.len() && 0 <= j < cs.len() && i != j implies cs[i]
            != cs[j] by {
            if i < j {
                assert(f(i) != f(j));
            } else {
                assert(f(j) != f(i));
            }
        }
    }
    cs.unique_seq_to_set();
    s.lemma_cardinality_of_set();
    assert(cs.to_set().subset_of(s.to_set())) by {
        assert forall|x: Seq<char>| cs.to_set().contains(x) implies s.to_set().contains(x) by {
            let i = choose|i: int| 0 <= i < cs.len() && cs[i] == x;
            assert(s.contains(f(i)));
        }
    }
    vstd::set_lib::lemma_len_subset(cs.to_set(), s.to_set());
}

/// Every well-formed id is one of `taken`.
pub open spec fn all_ids_taken(taken: Seq<Seq<char>>) -> bool {
    forall|s: Seq<char>| #[trigger] spec_valid_id(s) ==> taken.contains(s)
}

/// The value of a lowercase hex digit.
pub open spec fn hex_value(c: char) -> u32 {
    if c <= '9' {
        ((c as u32) - 48) as u32
    } else {
        ((c as u32) - 87) as u32
    }
}

pub proof fn lemma_hex_value(c: char)
    requires
        is_lower_hex(c),
    ensures
        hex_value(c) < 16,
        hex_digit(hex_value(c) as u8) == c,
{
    let n = hex_value(c);
    let t = seq!['0', '1', '2', '3', '4', '5', '6', '7', '8', '9', 'a', 'b', 'c', 'd', 'e', 'f'];
    assert(t[0] == '0' && t[1] == '1' && t[2] == '2' && t[3] == '3' && t[4] == '4' && t[5] == '5');
    assert(t[6] == '6' && t[7] == '7' && t[8] == '8' && t[9] == '9' && t[10] == 'a' && t[11] == 'b');
    assert(t[12] == 'c' && t[13] == 'd' && t[14] == 'e' && t[15] == 'f');
    assert(n == 0 || n == 1 || n == 2 || n == 3 || n == 4 || n == 5 || n == 6 || n == 7 || n == 8
        || n == 9 || n == 10 || n == 11 || n == 12 || n == 13 || n == 14 || n == 15);
}

/// The number that the eight hex digits of the id `s` spell.
pub open spec fn id_value(s: Seq<char>) -> u32 {
    (hex_value(s[0]) << 28u32) | (hex_value(s[1]) << 24u32) | (hex_value(s[2]) << 20u32) | (
    hex_value(s[3]) << 16u32) | (hex_value(s[4]) << 12u32) | (hex_value(s[5]) << 8u32) | (
    hex_value(s[6]) << 4u32) | hex_value(s[7])
}

/// Every well-formed id spells some number: the ids spelling 0, 1, 2, ...
/// run through all of them.
pub proof fn lemma_counter_id_onto(s: Seq<char>)
    requires
        spec_valid_id(s),
    ensures
        counter_id(id_value(s)) == s,
{
    let d0 = hex_value(s[0]);
    let d1 = hex_value(s[1]);
    let d2 = hex_value(s[2]);
    let d3 = hex_value(s[3]);
    let d4 = hex_value(s[4]);
    let d5 = hex_value(s[5]);
    let d6 = hex_value(s[6]);
    let d7 = hex_value(s[7]);
    lemma_hex_value(s[0]);
    lemma_hex_value(s[1]);
    lemma_hex_value(s[2]);
    lemma_hex_value(s[3]);
    lemma_hex_value(s[4]);
    lemma_hex_value(s[5]);
    lemma_hex_value(s[6]);
    lemma_hex_value(s[7]);
    let k = id_value(s);
    assert(((k >> 28) & 0xf) == d0 && ((k >> 24) & 0xf) == d1 && ((k >> 20) & 0xf) == d2 && ((k
        >> 16) & 0xf) == d3 && ((k >> 12) & 0xf) == d4 && ((k >> 8) & 0xf) == d5 && ((k >> 4)
        & 0xf) == d6 && (k & 0xf) == d7) by (bit_vector)
        requires
            d0 < 16 && d1 < 16 && d2 < 16 && d3 < 16 && d4 < 16 && d5 < 16 && d6 < 16 && d7 < 16,
            k == (d0 << 28u32) | (d1 << 24u32) | (d2 << 20u32) | (d3 << 16u32) | (d4 << 12u32) | (d5
                << 8u32) | (d6 << 4u32) | d7,
    ;
    assert(counter_id(k) =~= s);
}

/// Fewer than 2^32 taken ids leave a well-formed id free.
pub proof fn lemma_free_id_exists(taken: Seq<Seq<char>>)
    requires
        taken.len() < 0x1_0000_0000,
    ensures
        !all_ids_taken(taken),
{
    if all_ids_taken(taken) {
        let m: int = 0x1_0000_0000;
        let f = |i: int| counter_id(i as u32);
        assert forall|i: int, j: int| 0 <= i < j < m implies #[trigger] f(i) != #[trigger] f(j) by {
            lemma_counter_id(i as u32, j as u32);
        }
        assert forall|i: int| 0 <= i < m implies taken.contains(#[trigger] f(i)) by {
            lemma_counter_id(i as u32, i as u32);
            assert(spec_valid_id(counter_id(i as u32)));
        }
        lemma_distinct_within(f, m, taken);
    }
}

/// An id that is none of `taken`. Random ids are drawn until one is free;
/// should every one of an (unreachably) huge number of draws be taken, the
/// ids spelling 0, 1, 2, ... are tried in turn, of which one is free.
fn fresh_id(taken: &[String]) -> (id: String)
    requires
        !all_ids_taken(views(taken@)),
    ensures
        spec_valid_id(id@),
        !views(taken@).contains(id@),
{
    let mut draws: u64 = 0;
    while draws < u64::MAX
        invariant
            draws <= u64::MAX,
        decreases u64::MAX - draws,
    {
        let candidate = random_id();
        if !contains_string(taken, &candidate) {
            return candidate;
        }
        draws += 1;
    }
    let mut k: u64 = 0;
    while k < 0x1_0000_0000
        invariant
            k <= 0x1_0000_0000,
            !all_ids_taken(views(taken@)),
            forall|j: int| 0 <= j < k ==> views(taken@).contains(#[trigger] counter_id(j as u32)),
        decreases 0x1_0000_0000 - k,
    {
        let candidate = counter_id_string(k as u32);
        proof {
            lemma_counter_id(k as u32, k as u32);
        }
        if !contains_string(taken, &candidate) {
            return candidate;
        }
        assert(k as u32 as int == k as int);
        k += 1;
    }
    proof {
        let s = choose|s: Seq<char>| #[trigger] spec_valid_id(s) && !views(taken@).contains(s);
        lemma_counter_id_onto(s);
        let v = id_value(s);
        assert(v as int as u32 == v);
        assert(views(taken@).contains(counter_id(v as int as u32)));
    }
    counter_id_string(0)
}

impl Todo {
    /// A new open todo with an id that none of `taken` has, no labels and no
    /// comments. `taken` holds the ids already in the store, and leaves some
    /// well-formed id free.
    pub fn new(title: String, body: String, author: String, created: Timestamp, taken: &[String]) -> (t: Todo)
        requires
            !all_ids_taken(views(taken@)),
        ensures
            spec_valid_id(t.id@),
            !views(taken@).contains(t.id@),
            t.title == title,
            t.body == body,
            t.created_by == author,
            t.created == created,
            t.status == Status::Open,
            t.done is None,
            t.done_by is None,
            t.labels@.len() == 0,
            t.comments@.len() == 0,
    {
        let id = fresh_id(taken);
        Todo {
            id,
            title,
            status: Status::Open,
            created,
            created_by: author,
            done: None,
            done_by: None,
            labels: Vec::new(),
            body,
            comments: Vec::new(),
        }
    }

    /// Marks the todo done by `by` at `at`.
    pub fn mark_done(&mut self, by: String, at: Timestamp)
        ensures
            final(self).status == Status::Done,
            final(self).done == Some(at),
            final(self).done_by == Some(by),
            final(self).id == old(self).id,
            final(self).title == old(self).title,
            final(self).created == old(self).created,
            final(self).created_by == old(self).created_by,
            final(self).labels == old(self).labels,
            final(self).body == old(self).body,
            final(self).comments == old(self).comments,
    {
        self.status = Status::Done;
        self.done = Some(at);
        self.done_by = Some(by);
    }

    pub fn is_open(&self) -> (b: bool)
        ensures
            b == (self.status == Status::Open),
    {
        match self.status {
            Status::Open => true,
            Status::Done => false,
        }
    }

    /// Appends a comment by `by` written at `at`.
    pub fn add_comment(&mut self, by: String, body: String, at: Timestamp)
        ensures
            final(self).comments@.len() == old(self).comments@.len() + 1,
            forall|i: int| 0 <= i < old(self).comments@.len() ==> final(self).comments@[i] == old(self).comments@[i],
            final(self).comments@.last() == (Comment { at, by, body }),
            final(self).id == old(self).id,
            final(self).title == old(self).title,
            final(self).status == old(self).status,
            final(self).created == old(self).created,
            final(self).created_by == old(self).created_by,
            final(self).done == old(self).done,
            final(self).done_by == old(self).done_by,
            final(self).labels == old(self).labels,
            final(self).body == old(self).body,
    {
        self.comments.push(Comment { at, by, body });
    }
}

/// One label change: add (`+name`, or a bare `name`) or remove (`-name`).
#[derive(Debug, Clone, PartialEq, Eq)]
pub enum LabelEdit {
    Add(String),
    Remove(String),
}

impl LabelEdit {
    /// Whether the edit adds, and the label it names.
    pub open spec fn edit_view(self) -> (bool, Seq<char>) {
        match self {
            LabelEdit::Add(n) => (true, n@),
            LabelEdit::Remove(n) => (false, n@),
        }
    }
}

/// Whether `c` is alphabetic or numeric in Unicode's sense.
pub uninterp spec fn unicode_alphanumeric(c: char) -> bool;

/// `char::is_alphanumeric`: the Unicode `Alphabetic` or `Numeric` test. On
/// ASCII characters that is exactly the letters and the digits.
#[verifier::external_body]
fn char_is_alphanumeric(c: char) -> (b: bool)
    ensures
        b == unicode_alphanumeric(c),
        (c as u32) < 128 ==> (b <==> ascii_alphanumeric(c)),
{
    c.is_alphanumeric()
}

/// An ASCII letter or digit.
pub open spec fn ascii_alphanumeric(c: char) -> bool {
    ('0' <= c && c <= '9') || ('a' <= c && c <= 'z') || ('A' <= c && c <= 'Z')
}

/// A letter or digit: among ASCII characters the letters and digits, beyond
/// ASCII what Unicode counts as alphabetic or numeric.
pub open spec fn label_alphanumeric(c: char) -> bool {
    if (c as u32) < 128 {
        ascii_alphanumeric(c)
    } else {
        unicode_alphanumeric(c)
    }
}

/// A character that may appear in a label name.
pub open spec fn label_char_ok(c: char) -> bool {
    label_alphanumeric(c) || c == '-' || c == '_' || c == '/'
}

/// The kind of edit a non-empty token asks for, and the label name.
pub open spec fn split_edit(t: Seq<char>) -> (bool, Seq<char>) {
    if t[0] == '+' {
        (true, t.drop_first())
    } else if t[0] == '-' {
        (false, t.drop_first())
    } else {
        (true, t)
    }
}

/// What parsing the token `t` gives: the edit, or the error message.
pub open spec fn spec_parse_edit(t: Seq<char>) -> Result<(bool, Seq<char>), Seq<char>> {
    if t.len() == 0 {
        Err("empty label"@)
    } else {
        let (add, rest) = split_edit(t);
        if rest.len() == 0 {
            Err("empty label name in `"@ + t + "`"@)
        } else if exists|i: int| 0 <= i < rest.len() && !label_char_ok(#[trigger] rest[i]) {
            Err("invalid label `"@ + rest + "`: only alphanumerics, `-`, `_`, `/` allowed"@)
        } else {
            Ok((add, rest))
        }
    }
}

/// The characters a label name may hold, as the label command documents
/// them: ASCII letters and digits, `-`, `_`, `/`, and the non-ASCII
/// characters that Unicode counts as alphanumeric.
pub open spec fn documented_label_char(c: char) -> bool {
    ||| c == '-' || c == '_' || c == '/'
    ||| ('0' <= c && c <= '9') || ('a' <= c && c <= 'z') || ('A' <= c && c <= 'Z')
    ||| (c as u32) >= 128 && unicode_alphanumeric(c)
}

/// What a label token means: `+name` adds, `-name` removes, a bare `name`
/// adds; the token is accepted exactly when the name is not empty and every
/// character of it is one that `documented_label_char` admits.
pub proof fn law_label_token(t: Seq<char>)
    ensures
        t.len() == 0 ==> spec_parse_edit(t) is Err,
        t.len() > 0 && t.drop_first().len() > 0 && (t[0] == '+' || t[0] == '-') && (forall|i: int|
            0 <= i < t.drop_first().len() ==> documented_label_char(#[trigger] t.drop_first()[i]))
            ==> spec_parse_edit(t) == Ok::<(bool, Seq<char>), Seq<char>>((t[0] == '+', t.drop_first())),
        t.len() > 0 && t[0] != '+' && t[0] != '-' && (forall|i: int|
            0 <= i < t.len() ==> documented_label_char(#[trigger] t[i]))
            ==> spec_parse_edit(t) == Ok::<(bool, Seq<char>), Seq<char>>((true, t)),
        t.len() > 0 && (t[0] == '+' || t[0] == '-') && (t.drop_first().len() == 0 || exists|i: int|
            0 <= i < t.drop_first().len() && !documented_label_char(#[trigger] t.drop_first()[i]))
            ==> spec_parse_edit(t) is Err,
        t.len() > 0 && t[0] != '+' && t[0] != '-' && (exists|i: int|
            0 <= i < t.len() && !documented_label_char(#[trigger] t[i]))
            ==> spec_parse_edit(t) is Err,
{
    if t.len() > 0 {
        let name = if t[0] == '+' || t[0] == '-' {
            t.drop_first()
        } else {
            t
        };
        assert(name == split_edit(t).1);
        assert(split_edit(t).0 == (t[0] != '-'));
        assert forall|i: int| 0 <= i < name.len() implies (label_char_ok(#[trigger] name[i])
            <==> documented_label_char(name[i])) by {}
        let ok = name.len() > 0 && forall|i: int|
            0 <= i < name.len() ==> documented_label_char(#[trigger] name[i]);
        if ok {
            assert forall|i: int| 0 <= i < name.len() implies label_char_ok(#[trigger] name[i]) by {
                assert(documented_label_char(name[i]));
            }
            assert(!exists|i: int| 0 <= i < name.len() && !label_char_ok(#[trigger] name[i]));
            assert(spec_parse_edit(t) == Ok::<(bool, Seq<char>), Seq<char>>((t[0] != '-', name)));
        } else {
            if name.len() > 0 {
                let i = choose|i: int| 0 <= i < name.len() && !documented_label_char(#[trigger] name[i]);
                assert(!label_char_ok(name[i]));
            }
            assert(spec_parse_edit(t) is Err);
        }
    }
}

pub open spec fn parse_result_view(r: Result<LabelEdit, String>) -> Result<(bool, Seq<char>), Seq<char>> {
    match r {
        Ok(e) => Ok(e.edit_view()),
        Err(m) => Err(m@),
    }
}

impl LabelEdit {
    /// Parses a token like `+foo` or `-bar`; a bare `foo` adds. Label names
    /// are alphanumerics, `-`, `_` and `/`.
    pub fn parse(token: &str) -> (r: Result<LabelEdit, String>)
        ensures
            parse_result_view(r) == spec_parse_edit(token@),
    {
        let v = chars_of(token);
        if v.len() == 0 {
            return Err("empty label".to_owned());
        }
        let (add, start) = if v[0] == '+' {
            (true, 1)
        } else if v[0] == '-' {
            (false, 1)
        } else {
            (true, 0)
        };
        let ghost rest = split_edit(token@).1;
        assert(rest =~= v@.subrange(start as int, v@.len() as int));
        if start == v.len() {
            let mut m = "empty label name in `".to_owned();
            m.append(token);
            m.append("`");
            return Err(m);
        }
        let mut i = start;
        while i < v.len()
            invariant
                start <= i <= v@.len(),
                v@ == token@,
                start < v@.len(),
                rest == split_edit(token@).1,
                rest == v@.subrange(start as int, v@.len() as int),
                forall|j: int| 0 <= j < i - start ==> label_char_ok(#[trigger] rest[j]),
            decreases v@.len() - i,
        {
            let c = v[i];
            if !(char_is_alphanumeric(c) || c == '-' || c == '_' || c == '/') {
                assert(!label_char_ok(rest[i - start]));
                let name = crate::text::string_of_range(&v, start, v.len());
                let mut m = "invalid label `".to_owned();
                m.append(name.as_str());
                m.append("`: only alphanumerics, `-`, `_`, `/` allowed");
                return Err(m);
            }
            i += 1;
        }
        let name = crate::text::string_of_range(&v, start, v.len());
        if add {
            Ok(LabelEdit::Add(name))
        } else {
            Ok(LabelEdit::Remove(name))
        }
    }
}

/// A control character that a loaded field may not hold: C0 controls other
/// than tab (and newline, where `allow_newline`), DEL, and C1 controls.
pub open spec fn spec_forbidden(c: char, allow_newline: bool) -> bool {
    let u = c as u32;
    if c == '\t' {
        false
    } else if c == '\n' && allow_newline {
        false
    } else {
        u < 0x20 || u == 0x7f || (0x80 <= u && u <= 0x9f)
    }
}

fn is_forbidden(c: char, allow_newline: bool) -> (b: bool)
    ensures
        b == spec_forbidden(c, allow_newline),
        b == (c != '\t' && !(c == '\n' && allow_newline) && ((c as u32) < 0x20 || (c as u32) == 0x7f
            || (0x80 <= (c as u32) && (c as u32) <= 0x9f))),
{
    let u = c as u32;
    if c == '\t' {
        false
    } else if c == '\n' && allow_newline {
        false
    } else if u < 0x20 {
        true
    } else if u == 0x7f {
        true
    } else {
        0x80 <= u && u <= 0x9f
    }
}

/// Position of the first forbidden character of `s`, or `s.len()`.
pub open spec fn first_forbidden(s: Seq<char>, allow_newline: bool) -> nat
    decreases s.len(),
{
    if s.len() == 0 {
        0
    } else if spec_forbidden(s[0], allow_newline) {
        0
    } else {
        1 + first_forbidden(s.drop_first(), allow_newline)
    }
}

pub proof fn lemma_first_forbidden(s: Seq<char>, allow_newline: bool, m: int)
    requires
        0 <= m <= s.len(),
        forall|j: int| 0 <= j < m ==> !spec_forbidden(#[trigger] s[j], allow_newline),
        m < s.len() ==> spec_forbidden(s[m], allow_newline),
    ensures
        first_forbidden(s, allow_newline) == m,
    decreases m,
{
    if m > 0 {
        assert forall|j: int| 0 <= j < m - 1 implies !spec_forbidden(
            #[trigger] s.drop_first()[j],
            allow_newline,
        ) by {
            assert(s.drop_first()[j] == s[j + 1]);
        }
        lemma_first_forbidden(s.drop_first(), allow_newline, m - 1);
    }
}

/// The uppercase hex digit for `n` (`n < 16`).
pub open spec fn hex_upper_digit(n: u32) -> char {
    seq!['0', '1', '2', '3', '4', '5', '6', '7', '8', '9', 'A', 'B', 'C', 'D', 'E', 'F'][n as int]
}

/// `u` as four uppercase hex digits (`u < 0x10000`), as `{:04X}` prints it.
pub open spec fn hex4(u: u32) -> Seq<char> {
    seq![
        hex_upper_digit(u / 0x1000),
        hex_upper_digit((u / 0x100) % 16),
        hex_upper_digit((u / 0x10) % 16),
        hex_upper_digit(u % 16),
    ]
}

fn hex4_string(u: u32) -> (s: String)
    requires
        u < 0x10000,
    ensures
        s@ == hex4(u),
{
    let table: Vec<char> = vec!['0', '1', '2', '3', '4', '5', '6', '7', '8', '9', 'A', 'B', 'C', 'D', 'E', 'F'];
    assert(table@ =~= seq!['0', '1', '2', '3', '4', '5', '6', '7', '8', '9', 'A', 'B', 'C', 'D', 'E', 'F']);
    let mut s = String::new();
    push_char(&mut s, table[(u / 0x1000) as usize]);
    push_char(&mut s, table[((u / 0x100) % 16) as usize]);
    push_char(&mut s, table[((u / 0x10) % 16) as usize]);
    push_char(&mut s, table[(u % 16) as usize]);
    assert(s@ =~= hex4(u));
    s
}

/// Byte length of the UTF-8 encoding of `s`.
pub open spec fn byte_len(s: Seq<char>) -> nat {
    vstd::utf8::encode_utf8(s).len()
}

/// The size limit of a field, as its decimal digits.
pub open spec fn limit_text(multiline: bool) -> Seq<char> {
    if multiline {
        "65536"@
    } else {
        "1024"@
    }
}

/// Number of bytes in the UTF-8 encoding of `c`.
pub open spec fn utf8_width(c: char) -> nat {
    vstd::utf8::encode_scalar(c as u32).len()
}

pub proof fn lemma_encode_utf8_push(s: Seq<char>, c: char)
    ensures
        byte_len(s.push(c)) == byte_len(s) + utf8_width(c),
    decreases s.len(),
{
    let t = s.push(c);
    assert(t[0] == if s.len() > 0 { s[0] } else { c });
    if s.len() > 0 {
        assert(t.drop_first() =~= s.drop_first().push(c));
        lemma_encode_utf8_push(s.drop_first(), c);
        assert(vstd::utf8::encode_utf8(t) == vstd::utf8::encode_scalar(s[0] as u32)
            + vstd::utf8::encode_utf8(s.drop_first().push(c)));
        assert(vstd::utf8::encode_utf8(s) == vstd::utf8::encode_scalar(s[0] as u32)
            + vstd::utf8::encode_utf8(s.drop_first()));
    } else {
        assert(t.drop_first() =~= Seq::<char>::empty());
        assert(vstd::utf8::encode_utf8(t) == vstd::utf8::encode_scalar(c as u32)
            + vstd::utf8::encode_utf8(Seq::<char>::empty()));
    }
}

fn char_utf8_width(c: char) -> (w: usize)
    ensures
        w == utf8_width(c),
{
    let u = c as u32;
    if u <= 0x7f {
        1
    } else if u <= 0x7ff {
        2
    } else if u <= 0xffff {
        3
    } else {
        4
    }
}

/// Whether the UTF-8 encoding of `v` takes more than `max` bytes.
fn exceeds_utf8_len(v: &Vec<char>, max: usize) -> (b: bool)
    ensures
        b == (byte_len(v@) > max),
{
    let mut total: usize = 0;
    let mut i: usize = 0;
    assert(v@.take(0) =~= Seq::<char>::empty());
    while i < v.len()
        invariant
            i <= v@.len(),
            total == byte_len(v@.take(i as int)),
            total <= max,
        decreases v@.len() - i,
    {
        let w = char_utf8_width(v[i]);
        proof {
            assert(v@.take(i + 1) =~= v@.take(i as int).push(v@[i as int]));
            lemma_encode_utf8_push(v@.take(i as int), v@[i as int]);
        }
        if w > max - total {
            proof {
                lemma_byte_len_prefix(v@, i + 1);
            }
            return true;
        }
        total = total + w;
        i += 1;
    }
    assert(v@.take(i as int) =~= v@);
    false
}

pub proof fn lemma_byte_len_prefix(s: Seq<char>, k: int)
    requires
        0 <= k <= s.len(),
    ensures
        byte_len(s.take(k)) <= byte_len(s),
    decreases s.len() - k,
{
    if k < s.len() {
        assert(s.take(k + 1) =~= s.take(k).push(s[k]));
        lemma_encode_utf8_push(s.take(k), s[k]);
        lemma_byte_len_prefix(s, k + 1);
    } else {
        assert(s.take(k) =~= s);
    }
}

/// What is wrong with the field `s` named `name`, if anything: too many
/// bytes, or a forbidden control character (the first one is reported).
pub open spec fn field_problem(name: Seq<char>, s: Seq<char>, multiline: bool) -> Option<Seq<char>> {
    let max = if multiline {
        MAX_BODY
    } else {
        MAX_SINGLE_LINE
    };
    let k = first_forbidden(s, multiline);
    if byte_len(s) > max {
        Some(name + " exceeds "@ + limit_text(multiline) + " bytes"@)
    } else if k < s.len() {
        Some(name + " contains forbidden control char U+"@ + hex4(s[k as int] as u32))
    } else {
        None
    }
}

pub open spec fn unit_result_view(r: Result<(), String>) -> Option<Seq<char>> {
    match r {
        Ok(_) => None,
        Err(m) => Some(m@),
    }
}

/// Checks one field of a loaded todo against the size limit and for control
/// characters; newlines are allowed only where `multiline`.
fn check_field(name: &str, s: &str, multiline: bool) -> (r: Result<(), String>)
    ensures
        unit_result_view(r) == field_problem(name@, s@, multiline),
        r is Ok <==> (byte_len(s@) <= (if multiline { MAX_BODY } else { MAX_SINGLE_LINE })
            && forall|i: int| 0 <= i < s@.len() ==> !spec_forbidden(#[trigger] s@[i], multiline)),
        byte_len(s@) > (if multiline { MAX_BODY } else { MAX_SINGLE_LINE }) ==> unit_result_view(r)
            == Some(name@ + " exceeds "@ + limit_text(multiline) + " bytes"@),
{
    proof {
        lemma_field_problem(name@, s@, multiline);
    }
    let max = if multiline {
        MAX_BODY
    } else {
        MAX_SINGLE_LINE
    };
    let v = chars_of(s);
    if exceeds_utf8_len(&v, max) {
        let mut m = name.to_owned();
        m.append(" exceeds ");
        if multiline {
            m.append("65536");
        } else {
            m.append("1024");
        }
        m.append(" bytes");
        return Err(m);
    }
    let mut i: usize = 0;
    while i < v.len()
        invariant
            i <= v@.len(),
            v@ == s@,
            byte_len(s@) <= max,
            max == (if multiline { MAX_BODY } else { MAX_SINGLE_LINE }),
            forall|j: int| 0 <= j < i ==> !spec_forbidden(#[trigger] v@[j], multiline),
        decreases v@.len() - i,
    {
        if is_forbidden(v[i], multiline) {
            proof {
                lemma_first_forbidden(s@, multiline, i as int);
            }
            let u = v[i] as u32;
            let mut m = name.to_owned();
            m.append(" contains forbidden control char U+");
            let h = hex4_string(u);
            m.append(h.as_str());
            return Err(m);
        }
        i += 1;
    }
    proof {
        lemma_first_forbidden(s@, multiline, s@.len() as int);
    }
    Ok(())
}

/// The first of two problems, if any.
pub open spec fn first_problem(a: Option<Seq<char>>, b: Option<Seq<char>>) -> Option<Seq<char>> {
    if a is Some {
        a
    } else {
        b
    }
}

/// The first problem among the labels `ls`.
pub open spec fn labels_problem(ls: Seq<Seq<char>>) -> Option<Seq<char>>
    decreases ls.len(),
{
    if ls.len() == 0 {
        None
    } else {
        first_problem(field_problem("label"@, ls[0], false), labels_problem(ls.drop_first()))
    }
}

/// The first problem among the comments `cs` (author, then body, of each).
pub open spec fn comments_problem(cs: Seq<Comment>) -> Option<Seq<char>>
    decreases cs.len(),
{
    if cs.len() == 0 {
        None
    } else {
        first_problem(
            field_problem("comment.by"@, cs[0].by@, false),
            first_problem(
                field_problem("comment.body"@, cs[0].body@, true),
                comments_problem(cs.drop_first()),
            ),
        )
    }
}

/// Why a todo read from the todo branch is refused, if it is: checked in
/// order are the id, title, author, finisher, body, labels and comments.
pub open spec fn loaded_problem(t: Todo) -> Option<Seq<char>> {
    if !spec_valid_id(t.id@) {
        Some("invalid id `"@ + t.id@ + "` (expected 8 lowercase hex chars)"@)
    } else {
        first_problem(
            field_problem("title"@, t.title@, false),
            first_problem(
                field_problem("created_by"@, t.created_by@, false),
                first_problem(
                    match t.done_by {
                        Some(by) => field_problem("done_by"@, by@, false),
                        None => None,
                    },
                    first_problem(
                        field_problem("body"@, t.body@, true),
                        first_problem(labels_problem(views(t.labels@)), comments_problem(t.comments@)),
                    ),
                ),
            ),
        )
    }
}

/// A field that passes the checks.
pub open spec fn clean_field(s: Seq<char>, multiline: bool) -> bool {
    &&& byte_len(s) <= (if multiline { MAX_BODY } else { MAX_SINGLE_LINE })
    &&& forall|i: int| 0 <= i < s.len() ==> !spec_forbidden(#[trigger] s[i], multiline)
}

pub proof fn lemma_field_problem(name: Seq<char>, s: Seq<char>, multiline: bool)
    ensures
        field_problem(name, s, multiline) is None <==> clean_field(s, multiline),
{
    lemma_first_forbidden_bounds(s, multiline);
}

pub proof fn lemma_first_forbidden_bounds(s: Seq<char>, allow_newline: bool)
    ensures
        first_forbidden(s, allow_newline) <= s.len(),
        forall|j: int| 0 <= j < first_forbidden(s, allow_newline) ==> !spec_forbidden(#[trigger] s[j], allow_newline),
        first_forbidden(s, allow_newline) < s.len() ==> spec_forbidden(s[first_forbidden(s, allow_newline) as int], allow_newline),
    decreases s.len(),
{
    if s.len() > 0 && !spec_forbidden(s[0], allow_newline) {
        lemma_first_forbidden_bounds(s.drop_first(), allow_newline);
        assert forall|j: int| 0 <= j < first_forbidden(s, allow_newline) implies !spec_forbidden(#[trigger] s[j], allow_newline) by {
            if j > 0 {
                assert(s[j] == s.drop_first()[j - 1]);
            }
        }
    }
}

pub proof fn lemma_labels_problem(ls: Seq<Seq<char>>)
    ensures
        labels_problem(ls) is None <==> forall|i: int| 0 <= i < ls.len() ==> clean_field(#[trigger] ls[i], false),
    decreases ls.len(),
{
    if ls.len() > 0 {
        lemma_labels_problem(ls.drop_first());
        lemma_field_problem("label"@, ls[0], false);
        if labels_problem(ls) is None {
            assert forall|i: int| 0 <= i < ls.len() implies clean_field(#[trigger] ls[i], false) by {
                if i > 0 {
                    assert(ls[i] == ls.drop_first()[i - 1]);
                }
            }
        }
        if forall|i: int| 0 <= i < ls.len() ==> clean_field(#[trigger] ls[i], false) {
            assert forall|i: int| 0 <= i < ls.drop_first().len() implies clean_field(#[trigger] ls.drop_first()[i], false) by {
                assert(ls.drop_first()[i] == ls[i + 1]);
            }
        }
    }
}

pub proof fn lemma_comments_problem(cs: Seq<Comment>)
    ensures
        comments_problem(cs) is None <==> forall|i: int|
            0 <= i < cs.len() ==> clean_field((#[trigger] cs[i]).by@, false) && clean_field(cs[i].body@, true),
    decreases cs.len(),
{
    if cs.len() > 0 {
        lemma_comments_problem(cs.drop_first());
        lemma_field_problem("comment.by"@, cs[0].by@, false);
        lemma_field_problem("comment.body"@, cs[0].body@, true);
        if comments_problem(cs) is None {
            assert forall|i: int| 0 <= i < cs.len() implies clean_field((#[trigger] cs[i]).by@, false) && clean_field(cs[i].body@, true) by {
                if i > 0 {
                    assert(cs[i] == cs.drop_first()[i - 1]);
                }
            }
        }
        if forall|i: int| 0 <= i < cs.len() ==> clean_field((#[trigger] cs[i]).by@, false) && clean_field(cs[i].body@, true) {
            assert forall|i: int| 0 <= i < cs.drop_first().len() implies clean_field((#[trigger] cs.drop_first()[i]).by@, false) && clean_field(cs.drop_first()[i].body@, true) by {
                assert(cs.drop_first()[i] == cs[i + 1]);
            }
        }
    }
}

/// A todo that `validate_loaded` accepts is safe to print and to put into
/// commit messages: a well-formed id, no control characters but tabs (and
/// newlines in bodies), and every field within its size limit; and a todo
/// that is so is accepted.
pub proof fn law_accepted_exactly_when_clean(t: Todo)
    ensures
        loaded_problem(t) is None <==> {
            &&& spec_valid_id(t.id@)
            &&& clean_field(t.title@, false)
            &&& clean_field(t.created_by@, false)
            &&& (t.done_by matches Some(by) ==> clean_field(by@, false))
            &&& clean_field(t.body@, true)
            &&& forall|i: int| 0 <= i < t.labels@.len() ==> clean_field(#[trigger] t.labels@[i]@, false)
            &&& forall|i: int|
                0 <= i < t.comments@.len() ==> clean_field((#[trigger] t.comments@[i]).by@, false)
                    && clean_field(t.comments@[i].body@, true)
        },
{
    lemma_field_problem("title"@, t.title@, false);
    lemma_field_problem("created_by"@, t.created_by@, false);
    if let Some(by) = t.done_by {
        lemma_field_problem("done_by"@, by@, false);
    }
    lemma_field_problem("body"@, t.body@, true);
    lemma_labels_problem(views(t.labels@));
    lemma_comments_problem(t.comments@);
    let ls = views(t.labels@);
    assert((forall|i: int| 0 <= i < ls.len() ==> clean_field(#[trigger] ls[i], false)) <==> (forall|i: int|
        0 <= i < t.labels@.len() ==> clean_field(#[trigger] t.labels@[i]@, false))) by {
        if forall|i: int| 0 <= i < ls.len() ==> clean_field(#[trigger] ls[i], false) {
            assert forall|i: int| 0 <= i < t.labels@.len() implies clean_field(#[trigger] t.labels@[i]@, false) by {
                assert(ls[i] == t.labels@[i]@);
            }
        }
        if forall|i: int| 0 <= i < t.labels@.len() ==> clean_field(#[trigger] t.labels@[i]@, false) {
            assert forall|i: int| 0 <= i < ls.len() implies clean_field(#[trigger] ls[i], false) by {
                assert(ls[i] == t.labels@[i]@);
            }
        }
    }
}

fn check_labels(labels: &Vec<String>) -> (r: Result<(), String>)
    ensures
        unit_result_view(r) == labels_problem(views(labels@)),
{
    let ghost ls = views(labels@);
    let mut i: usize = 0;
    assert(ls.skip(0) =~= ls);
    while i < labels.len()
        invariant
            i <= labels@.len(),
            ls == views(labels@),
            labels_problem(ls) == labels_problem(ls.skip(i as int)),
        decreases labels@.len() - i,
    {
        assert(ls.skip(i as int)[0] == labels@[i as int]@);
        assert(ls.skip(i as int).drop_first() =~= ls.skip(i + 1));
        check_field("label", labels[i].as_str(), false)?;
        i += 1;
    }
    assert(ls.skip(i as int) =~= Seq::<Seq<char>>::empty());
    Ok(())
}

fn check_comments(comments: &Vec<Comment>) -> (r: Result<(), String>)
    ensures
        unit_result_view(r) == comments_problem(comments@),
{
    let ghost cs = comments@;
    let mut i: usize = 0;
    assert(cs.skip(0) =~= cs);
    while i < comments.len()
        invariant
            i <= comments@.len(),
            cs == comments@,
            comments_problem(cs) == comments_problem(cs.skip(i as int)),
        decreases comments@.len() - i,
    {
        assert(cs.skip(i as int)[0] == comments@[i as int]);
        assert(cs.skip(i as int).drop_first() =~= cs.skip(i + 1));
        check_field("comment.by", comments[i].by.as_str(), false)?;
        check_field("comment.body", comments[i].body.as_str(), true)?;
        i += 1;
    }
    assert(cs.skip(i as int) =~= Seq::<Comment>::empty());
    Ok(())
}

/// Checks a todo read from the todo branch, an untrusted source. Refused
/// are ids other than eight lowercase hex digits, control characters in any
/// field (newlines are allowed in bodies only), and fields over
/// `MAX_SINGLE_LINE` bytes (`MAX_BODY` for bodies).
pub fn validate_loaded(todo: &Todo) -> (r: Result<(), String>)
    ensures
        unit_result_view(r) == loaded_problem(*todo),
{
    if !is_valid_id(todo.id.as_str()) {
        let mut m = "invalid id `".to_owned();
        m.append(todo.id.as_str());
        m.append("` (expected 8 lowercase hex chars)");
        return Err(m);
    }
    check_field("title", todo.title.as_str(), false)?;
    check_field("created_by", todo.created_by.as_str(), false)?;
    if let Some(by) = &todo.done_by {
        check_field("done_by", by.as_str(), false)?;
    }
    check_field("body", todo.body.as_str(), true)?;
    check_labels(&todo.labels)?;
    check_comments(&todo.comments)?;
    Ok(())
}

} // verus!
