//! The generators behind `Gen.XXX`.
//!
//! GUIDs, ULIDs and digests are new for every row; dates and times are those
//! of the start of the run, the same for all of its rows.
use crate::double::Reading;
use crate::etl::script::ast::GenKind;
use crate::etl::script::keys::lemma_join_apart;
use crate::models::calendar::{
    day_text, is_day, is_time, padded, stamp_millis, stamp_ok, stamp_text, Day, DayView, Stamp,
    StampView,
};
use crate::models::value::{cell_text, convert, row_view, CellValue, CellView, DataType};
use crate::text;
use chrono::{Datelike, SecondsFormat, Timelike};
use sha2::Digest;
use vstd::arithmetic::power::{lemma_pow0, pow};
use vstd::prelude::*;
use vstd::utf8::encode_utf8;

verus! {

/// The SHA-256 digest of some bytes.
pub uninterp spec fn sha256_of(bytes: Seq<u8>) -> Seq<u8>;

/// The SHA-512 digest of some bytes.
pub uninterp spec fn sha512_of(bytes: Seq<u8>) -> Seq<u8>;

/// The MD5 digest of some bytes.
pub uninterp spec fn md5_of(bytes: Seq<u8>) -> Seq<u8>;

/// Calls `Sha256::digest`, whose 32 bytes depend on the input alone.
#[verifier::external_body]
pub(crate) fn sha256(bytes: &[u8]) -> (r: Vec<u8>)
    ensures
        r@ == sha256_of(bytes@),
        r@.len() == 32,
{
    sha2::Sha256::digest(bytes).as_slice().to_vec()
}

/// Calls `Sha512::digest`, whose 64 bytes depend on the input alone.
#[verifier::external_body]
fn sha512(bytes: &[u8]) -> (r: Vec<u8>)
    ensures
        r@ == sha512_of(bytes@),
        r@.len() == 64,
{
    sha2::Sha512::digest(bytes).as_slice().to_vec()
}

/// Calls `Md5::digest`, whose 16 bytes depend on the input alone.
#[verifier::external_body]
fn md5(bytes: &[u8]) -> (r: Vec<u8>)
    ensures
        r@ == md5_of(bytes@),
        r@.len() == 16,
{
    md5::Md5::digest(bytes).as_slice().to_vec()
}

/// The number carries the version and variant marks of a random UUID.
pub open spec fn is_random_uuid(v: u128) -> bool {
    &&& (v as nat / 0x1000_0000_0000_0000_0000) % 16 == 4
    &&& (v as nat / 0x4000_0000_0000_0000) % 4 == 2
}

/// All of the numbers are random UUIDs.
#[verifier::opaque]
pub open spec fn all_random(v: Seq<u128>) -> bool {
    forall|i: int| 0 <= i < v.len() ==> is_random_uuid(#[trigger] v[i])
}

/// Calls `Uuid::new_v4`: a random number apart from its version and variant marks.
#[verifier::external_body]
fn new_uuid() -> (r: u128)
    ensures
        is_random_uuid(r),
{
    uuid::Uuid::new_v4().as_u128()
}

/// Prints a `Uuid` in its hyphenated lower-case form.
#[verifier::external_body]
pub(crate) fn show_uuid(v: u128) -> (r: String)
    ensures
        r@ == uuid_text(v),
{
    uuid::Uuid::from_u128(v).to_string()
}

/// An offset from UTC in seconds as `+hh:mm` or `-hh:mm`, to the nearest minute.
pub open spec fn offset_shown(off: int) -> Seq<char> {
    let minutes = ((if off < 0 {
        -off
    } else {
        off
    }) + 30) / 60;
    seq![
        if off < 0 {
            '-'
        } else {
            '+'
        },
    ] + padded((minutes / 60) as nat, 2) + seq![':'] + padded((minutes % 60) as nat, 2)
}

/// A local time with milliseconds and its offset from UTC, as RFC 3339 writes it.
pub open spec fn rfc3339_text(t: StampView, off: int) -> Seq<char> {
    day_text(t.date) + seq!['T'] + padded(t.hour as nat, 2) + seq![':'] + padded(
        t.minute as nat,
        2,
    ) + seq![':'] + padded((t.second + t.nano / 1_000_000_000) as nat, 2) + seq!['.'] + padded(
        (t.nano % 1_000_000_000 / 1_000_000) as nat,
        3,
    ) + offset_shown(off)
}

/// The three are one and the same time, at some offset from UTC of less than a
/// day: milliseconds since 1970 in UTC, the local time, and its RFC 3339 text.
pub open spec fn same_time(millis: i64, local: StampView, shown: Seq<char>) -> bool {
    exists|off: int|
        -86_400 < off < 86_400 && shown == #[trigger] rfc3339_text(local, off) && millis
            == stamp_millis(local) - off * 1000
}

/// Reads the clock with `Local::now`: milliseconds since 1970 (not before),
/// the local date and time, and the RFC 3339 text with milliseconds and offset,
/// all of one time. Nothing is said of which time it is, nor of the offset.
#[verifier::external_body]
fn clock() -> (r: (i64, (i32, u32, u32), (u32, u32, u32, u32), String))
    ensures
        r.0 >= 0,
        is_day(r.1.0 as int, r.1.1 as int, r.1.2 as int),
        is_time(r.2.0 as int, r.2.1 as int, r.2.2 as int, r.2.3 as int),
        same_time(
            r.0,
            StampView {
                date: DayView { year: r.1.0 as int, month: r.1.1 as int, day: r.1.2 as int },
                hour: r.2.0 as int,
                minute: r.2.1 as int,
                second: r.2.2 as int,
                nano: r.2.3 as int,
            },
            r.3@,
        ),
{
    let now = chrono::Local::now();
    let t = now.naive_local();
    (
        now.timestamp_millis(),
        (t.year(), t.month(), t.day()),
        (t.hour(), t.minute(), t.second(), t.nanosecond()),
        now.to_rfc3339_opts(SecondsFormat::Millis, false),
    )
}

pub open spec fn hex_digit(d: int) -> char {
    if d < 10 {
        (('0' as int) + d) as char
    } else {
        (('a' as int) + (d - 10)) as char
    }
}

/// Two lower-case hexadecimal digits for every byte.
pub open spec fn hex_text(b: Seq<u8>) -> Seq<char> {
    Seq::new(
        2 * b.len(),
        |i: int|
            hex_digit(
                if i % 2 == 0 {
                    b[i / 2] as int / 16
                } else {
                    b[i / 2] as int % 16
                },
            ),
    )
}

/// The last `n` hexadecimal digits of a number.
pub open spec fn hex_number(v: nat, n: nat) -> Seq<char>
    decreases n,
{
    if n == 0 {
        seq![]
    } else {
        hex_number(v / 16, (n - 1) as nat).push(hex_digit((v % 16) as int))
    }
}

/// A 128-bit number in the groups of a UUID.
pub open spec fn uuid_text(v: u128) -> Seq<char> {
    let h = hex_number(v as nat, 32);
    h.subrange(0, 8) + seq!['-'] + h.subrange(8, 12) + seq!['-'] + h.subrange(12, 16) + seq!['-']
        + h.subrange(16, 20) + seq!['-'] + h.subrange(20, 32)
}

/// The digits of Crockford's base 32.
pub open spec fn crockford(d: int) -> char {
    if d < 10 {
        (('0' as int) + d) as char
    } else if d < 18 {
        (('A' as int) + (d - 10)) as char
    } else if d < 20 {
        (('J' as int) + (d - 18)) as char
    } else if d < 22 {
        (('M' as int) + (d - 20)) as char
    } else if d < 27 {
        (('P' as int) + (d - 22)) as char
    } else {
        (('V' as int) + (d - 27)) as char
    }
}

/// The last `n` base-32 digits of a number.
pub open spec fn base32(v: nat, n: nat) -> Seq<char>
    decreases n,
{
    if n == 0 {
        seq![]
    } else {
        base32(v / 32, (n - 1) as nat).push(crockford((v % 32) as int))
    }
}

/// The number behind a ULID: 48 bits of milliseconds, then the first 80 random bits.
pub open spec fn ulid_number(ms: u64, random: u128) -> nat {
    (ms as nat % 0x1_0000_0000_0000) * 0x1_0000_0000_0000_0000_0000 + random as nat
        / 0x1_0000_0000_0000
}

/// A ULID: 26 digits in base 32.
pub open spec fn ulid_text(ms: u64, random: u128) -> Seq<char> {
    base32(ulid_number(ms, random), 26)
}

/// `a` comes before `b` in dictionary order.
pub open spec fn comes_before(a: Seq<char>, b: Seq<char>) -> bool {
    exists|k: int|
        #![trigger a.take(k)]
        0 <= k < a.len() && k < b.len() && a.take(k) == b.take(k) && a[k] < b[k]
}

proof fn lemma_base32_len(v: nat, n: nat)
    ensures
        base32(v, n).len() == n,
        forall|i: int|
            0 <= i < n ==> exists|d: int| 0 <= d < 32 && #[trigger] base32(v, n)[i] == crockford(d),
    decreases n,
{
    if n > 0 {
        lemma_base32_len(v / 32, (n - 1) as nat);
        let s = base32(v, n);
        assert forall|i: int| 0 <= i < n implies exists|d: int|
            0 <= d < 32 && #[trigger] s[i] == crockford(d) by {
            if i < n - 1 {
                assert(s[i] == base32(v / 32, (n - 1) as nat)[i]);
            } else {
                assert(s[i] == crockford((v % 32) as int));
            }
        }
    }
}

proof fn lemma_base32_order(v: nat, w: nat, n: nat)
    requires
        v < w,
        w < pow(32, n),
    ensures
        comes_before(base32(v, n), base32(w, n)),
    decreases n,
{
    if n == 0 {
        lemma_pow0(32);
    } else {
        let a = base32(v / 32, (n - 1) as nat);
        let b = base32(w / 32, (n - 1) as nat);
        lemma_base32_len(v / 32, (n - 1) as nat);
        lemma_base32_len(w / 32, (n - 1) as nat);
        let x = base32(v, n);
        let y = base32(w, n);
        if v / 32 < w / 32 {
            vstd::arithmetic::power::lemma_pow_adds(32, 1, (n - 1) as nat);
            vstd::arithmetic::power::lemma_pow1(32);
            assert(w / 32 < pow(32, (n - 1) as nat));
            lemma_base32_order(v / 32, w / 32, (n - 1) as nat);
            let k = choose|k: int|
                #![trigger a.take(k)]
                0 <= k < a.len() && k < b.len() && a.take(k) == b.take(k) && a[k] < b[k];
            assert(x.take(k) =~= a.take(k));
            assert(y.take(k) =~= b.take(k));
            assert(x[k] == a[k] && y[k] == b[k]);
        } else {
            assert(v / 32 == w / 32);
            assert(v % 32 < w % 32);
            assert(x.take(n - 1) =~= a);
            assert(y.take(n - 1) =~= b);
            assert(x[n - 1] < y[n - 1]);
        }
    }
}

/// A ULID has 26 characters of Crockford's base 32.
pub proof fn law_ulid_shape(ms: u64, random: u128)
    ensures
        ulid_text(ms, random).len() == 26,
        forall|i: int|
            0 <= i < 26 ==> exists|d: int|
                0 <= d < 32 && #[trigger] ulid_text(ms, random)[i] == crockford(d),
{
    lemma_base32_len(ulid_number(ms, random), 26);
}

/// ULIDs come in dictionary order of their times, whatever their random parts,
/// as long as the milliseconds fit their 48 bits.
pub proof fn law_ulid_orders_by_time(a: u64, b: u64, x: u128, y: u128)
    requires
        a < b < 0x1_0000_0000_0000,
    ensures
        comes_before(ulid_text(a, x), ulid_text(b, y)),
{
    assert(ulid_number(a, x) < ulid_number(b, y));
    assert(ulid_number(b, y) < 0x1_0000_0000_0000_0000_0000_0000_0000_0000);
    assert(pow(32, 26) == 0x4_0000_0000_0000_0000_0000_0000_0000_0000) by {
        reveal(pow);
        reveal_with_fuel(pow, 27);
    }
    lemma_base32_order(ulid_number(a, x), ulid_number(b, y), 26);
}

/// The start of a run, as the generators see it.
pub struct GenContext {
    millis: i64,
    local: Stamp,
    offset_text: String,
}

pub struct CtxView {
    pub millis: i64,
    pub local: StampView,
    pub offset_text: Seq<char>,
}

impl View for GenContext {
    type V = CtxView;

    closed spec fn view(&self) -> CtxView {
        CtxView { millis: self.millis, local: self.local@, offset_text: self.offset_text@ }
    }
}

impl GenContext {
    /// The context of a run that starts now: one time in its three forms.
    /// Nothing is said of which time it is.
    pub fn new() -> (r: GenContext)
        ensures
            stamp_ok(r@.local),
            same_time(r@.millis, r@.local, r@.offset_text),
            r@.millis >= 0,
    {
        let (millis, d, t, offset_text): (
            i64,
            (i32, u32, u32),
            (u32, u32, u32, u32),
            String,
        ) = clock();
        let day: Day = Day::new(d.0, d.1, d.2).unwrap();
        let local: Stamp = Stamp::new(day, t.0, t.1, t.2, t.3).unwrap();
        GenContext::at(millis, local, offset_text)
    }

    /// The context of a run that started at a given time.
    pub fn at(millis: i64, local: Stamp, offset_text: String) -> (r: GenContext)
        ensures
            r@ == (CtxView { millis, local: local@, offset_text: offset_text@ }),
            stamp_ok(r@.local),
    {
        local.check();
        GenContext { millis, local, offset_text }
    }
}

/// Where random numbers come from; every number drawn is on record.
pub struct Entropy {
    log: Ghost<Seq<u128>>,
}

impl View for Entropy {
    type V = Seq<u128>;

    closed spec fn view(&self) -> Seq<u128> {
        self.log@
    }
}

impl Entropy {
    /// A source that nothing was drawn from yet.
    pub fn new() -> (r: Entropy)
        ensures
            r@.len() == 0,
    {
        Entropy { log: Ghost(Seq::empty()) }
    }

    /// Draws a random number.
    pub fn draw(&mut self) -> (r: u128)
        ensures
            final(self)@ == old(self)@.push(r),
            is_random_uuid(r),
    {
        let v: u128 = new_uuid();
        self.log = Ghost(self.log@.push(v));
        v
    }
}

/// The texts of the cells with a unit separator between neighbours.
pub open spec fn fingerprint(row: Seq<CellView>) -> Seq<char> {
    text::join_seq(Seq::new(row.len(), |i: int| cell_text(row[i])), seq!['\u{1f}'])
}

/// The generator uses up a random number.
pub open spec fn draws_one(kind: GenKind) -> bool {
    kind == GenKind::Guid || kind == GenKind::GuidText || kind == GenKind::Ulid
}

/// The value of a generator for a row, given the random number it draws, if it draws one.
pub open spec fn gen_value(kind: GenKind, row: Seq<CellView>, ctx: CtxView, random: u128) -> CellView {
    match kind {
        GenKind::Guid => CellView::Text(uuid_text(random)),
        GenKind::GuidText => CellView::Text(uuid_text(random)),
        GenKind::Ulid => CellView::Text(
            ulid_text(
                if ctx.millis < 0 {
                    0
                } else {
                    ctx.millis as u64
                },
                random,
            ),
        ),
        GenKind::Date => CellView::Date(ctx.local.date),
        GenKind::DateText => CellView::Text(day_text(ctx.local.date)),
        GenKind::DateTime => CellView::DateTime(ctx.local),
        GenKind::DateTimeText => CellView::Text(stamp_text(ctx.local)),
        GenKind::DateTimeOffset => CellView::Text(ctx.offset_text),
        GenKind::DateTimeOffsetText => CellView::Text(ctx.offset_text),
        GenKind::Sha256 => CellView::Text(hex_text(sha256_of(encode_utf8(fingerprint(row))))),
        GenKind::Sha512 => CellView::Text(hex_text(sha512_of(encode_utf8(fingerprint(row))))),
        GenKind::Md5 => CellView::Text(hex_text(md5_of(encode_utf8(fingerprint(row))))),
    }
}

/// The value of a generator when the random numbers are `draws` and `at` of
/// them are used up, and how many are used up behind it.
pub open spec fn gen_step(
    kind: GenKind,
    row: Seq<CellView>,
    ctx: CtxView,
    draws: Seq<u128>,
    at: nat,
) -> (CellView, nat) {
    (
        gen_value(kind, row, ctx, draws[at as int]),
        if draws_one(kind) {
            at + 1
        } else {
            at
        },
    )
}

/// Two lower-case hexadecimal digits for every byte.
pub(crate) fn hex(bytes: &Vec<u8>) -> (r: String)
    ensures
        r@ == hex_text(bytes@),
{
    let mut s: String = String::new();
    let mut i: usize = 0;
    while i < bytes.len()
        invariant
            i <= bytes@.len(),
            s@ == hex_text(bytes@).take(2 * i),
        decreases bytes@.len() - i,
    {
        let b: u8 = bytes[i];
        let ghost before = s@;
        s.push(hex_char(b / 16));
        s.push(hex_char(b % 16));
        proof {
            let all = hex_text(bytes@);
            assert((2 * i) / 2 == i);
            assert((2 * i + 1) / 2 == i);
            assert(all.take(2 * (i + 1)) =~= all.take(2 * i).push(all[2 * i]).push(all[2 * i + 1]));
        }
        i += 1;
    }
    assert(hex_text(bytes@).take(2 * i) =~= hex_text(bytes@));
    s
}

fn hex_char(d: u8) -> (r: char)
    requires
        d < 16,
    ensures
        r == hex_digit(d as int),
{
    if d < 10 {
        (48 + d) as char
    } else {
        (97 + (d - 10)) as char
    }
}

fn crockford_char(d: u8) -> (r: char)
    requires
        d < 32,
    ensures
        r == crockford(d as int),
{
    if d < 10 {
        (48 + d) as char
    } else if d < 18 {
        (65 + (d - 10)) as char
    } else if d < 20 {
        (74 + (d - 18)) as char
    } else if d < 22 {
        (77 + (d - 20)) as char
    } else if d < 27 {
        (80 + (d - 22)) as char
    } else {
        (86 + (d - 27)) as char
    }
}

fn base32_text(v: u128, n: u8) -> (r: String)
    ensures
        r@ == base32(v as nat, n as nat),
    decreases n,
{
    if n == 0 {
        let s: String = String::new();
        assert(s@ =~= seq![]);
        s
    } else {
        let mut s: String = base32_text(v / 32, n - 1);
        s.push(crockford_char((v % 32) as u8));
        s
    }
}

/// The ULID of a time and a random number.
pub fn ulid_from(timestamp_ms: u64, random: u128) -> (r: String)
    ensures
        r@ == ulid_text(timestamp_ms, random),
{
    let ms: u128 = timestamp_ms as u128 % 0x1_0000_0000_0000;
    let value: u128 = ms * 0x1_0000_0000_0000_0000_0000 + random / 0x1_0000_0000_0000;
    base32_text(value, 26)
}

/// A new ULID for a time.
pub fn new_ulid(timestamp_ms: u64, entropy: &mut Entropy) -> (r: String)
    ensures
        final(entropy)@.len() == old(entropy)@.len() + 1,
        final(entropy)@ == old(entropy)@.push(final(entropy)@.last()),
        is_random_uuid(final(entropy)@.last()),
        r@ == ulid_text(timestamp_ms, final(entropy)@.last()),
{
    let random: u128 = entropy.draw();
    ulid_from(timestamp_ms, random)
}

/// The texts of the cells with a unit separator between neighbours.
fn row_fingerprint(row: &Vec<CellValue>) -> (r: String)
    ensures
        r@ == fingerprint(row_view(row@)),
{
    let mut parts: Vec<String> = Vec::new();
    let mut i: usize = 0;
    while i < row.len()
        invariant
            i <= row@.len(),
            parts@.len() == i,
            forall|j: int| 0 <= j < i ==> #[trigger] parts@[j]@ == cell_text(row@[j]@),
        decreases row@.len() - i,
    {
        parts.push(row[i].to_display_string());
        i += 1;
    }
    proof {
        let cells = row_view(row@);
        assert(text::views(parts@) =~= Seq::new(cells.len(), |j: int| cell_text(cells[j])));
        reveal_strlit("\u{1f}");
        assert("\u{1f}"@ =~= seq!['\u{1f}']);
    }
    text::join(&parts, "\u{1f}")
}

/// Generates a value for a row.
pub fn generate(kind: GenKind, row: &Vec<CellValue>, ctx: &GenContext, entropy: &mut Entropy) -> (r:
    CellValue)
    ensures
        draws_one(kind) ==> final(entropy)@ == old(entropy)@.push(final(entropy)@.last())
            && final(entropy)@.len() == old(entropy)@.len() + 1 && is_random_uuid(
            final(entropy)@.last(),
        ),
        !draws_one(kind) ==> final(entropy)@ == old(entropy)@,
        (r@, final(entropy)@.len()) == gen_step(
            kind,
            row_view(row@),
            ctx@,
            final(entropy)@,
            old(entropy)@.len(),
        ),
{
    match kind {
        GenKind::Guid => {
            let v: u128 = entropy.draw();
            CellValue::Text(show_uuid(v))
        },
        GenKind::GuidText => {
            let v: u128 = entropy.draw();
            CellValue::Text(show_uuid(v))
        },
        GenKind::Ulid => {
            let ms: u64 = if ctx.millis < 0 { 0 } else { ctx.millis as u64 };
            CellValue::Text(new_ulid(ms, entropy))
        },
        GenKind::Date => CellValue::Date(ctx.local.date()),
        GenKind::DateText => CellValue::Text(ctx.local.date().show()),
        GenKind::DateTime => CellValue::DateTime(ctx.local),
        GenKind::DateTimeText => CellValue::Text(ctx.local.show()),
        GenKind::DateTimeOffset => CellValue::Text(ctx.offset_text.clone()),
        GenKind::DateTimeOffsetText => CellValue::Text(ctx.offset_text.clone()),
        GenKind::Sha256 => CellValue::Text(
            hex(&sha256(row_fingerprint(row).as_str().as_bytes())),
        ),
        GenKind::Sha512 => CellValue::Text(
            hex(&sha512(row_fingerprint(row).as_str().as_bytes())),
        ),
        GenKind::Md5 => CellValue::Text(hex(&md5(row_fingerprint(row).as_str().as_bytes()))),
    }
}

proof fn lemma_hex_number(v: nat, n: nat)
    ensures
        hex_number(v, n).len() == n,
        forall|i: int|
            0 <= i < n ==> exists|d: int| 0 <= d < 16 && #[trigger] hex_number(v, n)[i] == hex_digit(d),
    decreases n,
{
    if n > 0 {
        lemma_hex_number(v / 16, (n - 1) as nat);
        let t = hex_number(v, n);
        let before = hex_number(v / 16, (n - 1) as nat);
        assert forall|i: int| 0 <= i < n implies exists|d: int|
            0 <= d < 16 && #[trigger] t[i] == hex_digit(d) by {
            if i < n - 1 {
                assert(t[i] == before[i]);
            } else {
                assert(t[i] == hex_digit((v % 16) as int));
            }
        }
    }
}

/// Each digit has a character of its own.
proof fn lemma_hex_digits_differ(a: int, b: int)
    requires
        0 <= a < 16,
        0 <= b < 16,
        hex_digit(a) == hex_digit(b),
    ensures
        a == b,
{
}

proof fn lemma_hex_numbers_differ(v: nat, w: nat, n: nat)
    requires
        v < pow(16, n),
        w < pow(16, n),
        hex_number(v, n) == hex_number(w, n),
    ensures
        v == w,
    decreases n,
{
    reveal(pow);
    if n > 0 {
        let m = (n - 1) as nat;
        let a = hex_number(v / 16, m);
        let b = hex_number(w / 16, m);
        let x = hex_number(v, n);
        lemma_hex_number(v / 16, m);
        lemma_hex_number(w / 16, m);
        assert(x.drop_last() =~= a);
        assert(hex_number(w, n).drop_last() =~= b);
        assert(x.last() == hex_digit((v % 16) as int));
        assert(hex_number(w, n).last() == hex_digit((w % 16) as int));
        lemma_hex_digits_differ((v % 16) as int, (w % 16) as int);
        assert(pow(16, n) == 16 * pow(16, m));
        lemma_hex_numbers_differ(v / 16, w / 16, m);
    }
}

/// A UUID is written in 36 characters, five groups of hexadecimal digits with hyphens
/// between them, and no two UUIDs are written alike.
pub proof fn law_uuids_are_told_apart(a: u128, b: u128)
    ensures
        uuid_text(a).len() == 36,
        forall|i: int|
            0 <= i < 36 ==> if i == 8 || i == 13 || i == 18 || i == 23 {
                #[trigger] uuid_text(a)[i] == '-'
            } else {
                exists|d: int| 0 <= d < 16 && uuid_text(a)[i] == #[trigger] hex_digit(d)
            },
        uuid_text(a) == uuid_text(b) <==> a == b,
{
    let x = hex_number(a as nat, 32);
    let y = hex_number(b as nat, 32);
    let s = uuid_text(a);
    let t = uuid_text(b);
    lemma_hex_number(a as nat, 32);
    lemma_hex_number(b as nat, 32);
    assert forall|i: int| 0 <= i < 36 implies if i == 8 || i == 13 || i == 18 || i == 23 {
        #[trigger] s[i] == '-'
    } else {
        exists|d: int| 0 <= d < 16 && s[i] == #[trigger] hex_digit(d)
    } by {
        let k = uuid_digit(i);
        if !(i == 8 || i == 13 || i == 18 || i == 23) {
            assert(s[i] == x[k]);
            let d = choose|d: int| 0 <= d < 16 && x[k] == hex_digit(d);
            assert(s[i] == hex_digit(d));
        }
    }
    if s == t {
        assert forall|k: int| 0 <= k < 32 implies x[k] == y[k] by {
            let i = uuid_place(k);
            assert(s[i] == x[k]);
            assert(t[i] == y[k]);
        }
        assert(x =~= y);
        assert(pow(16, 32) == 0x1_0000_0000_0000_0000_0000_0000_0000_0000) by {
            reveal(pow);
            reveal_with_fuel(pow, 33);
        }
        lemma_hex_numbers_differ(a as nat, b as nat, 32);
    }
}

/// Which digit stands at a place of a UUID.
spec fn uuid_digit(i: int) -> int {
    if i < 8 {
        i
    } else if i < 13 {
        i - 1
    } else if i < 18 {
        i - 2
    } else if i < 23 {
        i - 3
    } else {
        i - 4
    }
}

/// The place of a digit in a UUID.
spec fn uuid_place(k: int) -> int {
    if k < 8 {
        k
    } else if k < 12 {
        k + 1
    } else if k < 16 {
        k + 2
    } else if k < 20 {
        k + 3
    } else {
        k + 4
    }
}

/// Bytes are written in two hexadecimal digits each, and no two sequences of bytes are
/// written alike.
pub proof fn law_bytes_are_told_apart(a: Seq<u8>, b: Seq<u8>)
    ensures
        hex_text(a).len() == 2 * a.len(),
        hex_text(a) == hex_text(b) <==> a == b,
{
    if hex_text(a) == hex_text(b) {
        assert(hex_text(a).len() == 2 * a.len() && hex_text(b).len() == 2 * b.len());
        assert forall|i: int| 0 <= i < a.len() implies a[i] == b[i] by {
            assert(hex_text(a)[2 * i] == hex_digit(a[i] as int / 16));
            assert(hex_text(b)[2 * i] == hex_digit(b[i] as int / 16));
            assert(hex_text(a)[2 * i + 1] == hex_digit(a[i] as int % 16));
            assert(hex_text(b)[2 * i + 1] == hex_digit(b[i] as int % 16));
            lemma_hex_digits_differ(a[i] as int / 16, b[i] as int / 16);
            lemma_hex_digits_differ(a[i] as int % 16, b[i] as int % 16);
        }
        assert(a =~= b);
    }
}

/// What a digest is taken of tells rows apart: rows of the same width have the same
/// fingerprint exactly where their cells have the same texts, as long as no text
/// holds the separator.
pub proof fn law_fingerprints_tell_rows_apart(a: Seq<CellView>, b: Seq<CellView>)
    requires
        a.len() == b.len(),
        forall|i: int| 0 <= i < a.len() ==> !cell_text(#[trigger] a[i]).contains('\u{1f}'),
        forall|i: int| 0 <= i < b.len() ==> !cell_text(#[trigger] b[i]).contains('\u{1f}'),
    ensures
        fingerprint(a) == fingerprint(b) <==> forall|i: int|
            0 <= i < a.len() ==> cell_text(#[trigger] a[i]) == cell_text(b[i]),
{
    let x = Seq::new(a.len(), |i: int| cell_text(a[i]));
    let y = Seq::new(b.len(), |i: int| cell_text(b[i]));
    if fingerprint(a) == fingerprint(b) {
        lemma_join_apart(x, y, '\u{1f}');
        assert forall|i: int| 0 <= i < a.len() implies cell_text(#[trigger] a[i]) == cell_text(
            b[i],
        ) by {
            assert(x[i] == y[i]);
        }
    } else if forall|i: int| 0 <= i < a.len() ==> cell_text(#[trigger] a[i]) == cell_text(b[i]) {
        assert(x =~= y);
    }
}

/// The time of a run is the same for every row, and its forms agree: the date is the
/// day of the date and time, each text form is the text of the value, and the text of
/// the date and time starts with that of the date.
pub proof fn law_times_of_a_run_agree(
    a: Seq<CellView>,
    b: Seq<CellView>,
    ctx: CtxView,
    x: u128,
    y: u128,
    rd: Reading,
)
    ensures
        gen_value(GenKind::DateTime, a, ctx, x) == CellView::DateTime(ctx.local),
        convert(gen_value(GenKind::DateTime, a, ctx, x), DataType::Date, rd) == Ok::<
            CellView,
            Seq<char>,
        >(gen_value(GenKind::Date, b, ctx, y)),
        gen_value(GenKind::DateText, a, ctx, x) == CellView::Text(
            cell_text(gen_value(GenKind::Date, b, ctx, y)),
        ),
        gen_value(GenKind::DateTimeText, a, ctx, x) == CellView::Text(
            cell_text(gen_value(GenKind::DateTime, b, ctx, y)),
        ),
        gen_value(GenKind::DateTimeOffset, a, ctx, x) == CellView::Text(ctx.offset_text),
        gen_value(GenKind::DateTimeOffsetText, a, ctx, x) == gen_value(
            GenKind::DateTimeOffset,
            b,
            ctx,
            y,
        ),
{
}

/// A digest depends on the row alone, a GUID on the random number alone, and a ULID on
/// the time and the random number.
pub proof fn law_values_come_from_their_sources(
    row: Seq<CellView>,
    other: Seq<CellView>,
    ctx: CtxView,
    later: CtxView,
    x: u128,
    y: u128,
)
    ensures
        gen_value(GenKind::Sha256, row, ctx, x) == gen_value(GenKind::Sha256, row, later, y),
        gen_value(GenKind::Sha512, row, ctx, x) == gen_value(GenKind::Sha512, row, later, y),
        gen_value(GenKind::Md5, row, ctx, x) == gen_value(GenKind::Md5, row, later, y),
        fingerprint(row) == fingerprint(other) ==> gen_value(GenKind::Sha256, row, ctx, x)
            == gen_value(GenKind::Sha256, other, later, y),
        gen_value(GenKind::Guid, row, ctx, x) == gen_value(GenKind::Guid, other, later, y) <==> x
            == y,
        gen_value(GenKind::GuidText, row, ctx, x) == gen_value(GenKind::Guid, other, later, x),
        ctx.millis == later.millis ==> gen_value(GenKind::Ulid, row, ctx, x) == gen_value(
            GenKind::Ulid,
            other,
            later,
            x,
        ),
{
    law_uuids_are_told_apart(x, y);
}

/// Each value that takes a random number takes the next one and leaves those behind it
/// to later values; the others take none.
pub proof fn law_random_numbers_are_used_once(
    kind: GenKind,
    row: Seq<CellView>,
    ctx: CtxView,
    draws: Seq<u128>,
    at: nat,
)
    ensures
        kind == GenKind::Guid || kind == GenKind::GuidText || kind == GenKind::Ulid <==> gen_step(
            kind,
            row,
            ctx,
            draws,
            at,
        ).1 != at,
        gen_step(kind, row, ctx, draws, at).1 <= at + 1,
        gen_step(GenKind::Guid, row, ctx, draws, at).0 == CellView::Text(
            uuid_text(draws[at as int]),
        ),
{
}

proof fn lemma_base32_differ(v: nat, w: nat, n: nat)
    requires
        v < pow(32, n),
        w < pow(32, n),
        base32(v, n) == base32(w, n),
    ensures
        v == w,
{
    if v < w {
        lemma_base32_order(v, w, n);
        let k = choose|k: int|
            #![trigger base32(v, n).take(k)]
            0 <= k < base32(v, n).len() && k < base32(w, n).len() && base32(v, n).take(k) == base32(
                w,
                n,
            ).take(k) && base32(v, n)[k] < base32(w, n)[k];
        assert(base32(v, n)[k] == base32(w, n)[k]);
    } else if w < v {
        lemma_base32_order(w, v, n);
        let k = choose|k: int|
            #![trigger base32(w, n).take(k)]
            0 <= k < base32(w, n).len() && k < base32(v, n).len() && base32(w, n).take(k) == base32(
                v,
                n,
            ).take(k) && base32(w, n)[k] < base32(v, n)[k];
        assert(base32(v, n)[k] == base32(w, n)[k]);
    }
}

/// A ULID keeps its time and the upper 80 bits of its random number: no two with
/// another time or other such bits are written alike.
pub proof fn law_ulids_are_told_apart(a: u64, b: u64, x: u128, y: u128)
    requires
        a < 0x1_0000_0000_0000,
        b < 0x1_0000_0000_0000,
    ensures
        ulid_text(a, x) == ulid_text(b, y) <==> a == b && x / 0x1_0000_0000_0000 == y
            / 0x1_0000_0000_0000,
{
    assert(pow(32, 26) == 0x4_0000_0000_0000_0000_0000_0000_0000_0000) by {
        reveal(pow);
        reveal_with_fuel(pow, 27);
    }
    assert(ulid_number(a, x) < 0x1_0000_0000_0000_0000_0000_0000_0000_0000);
    assert(ulid_number(b, y) < 0x1_0000_0000_0000_0000_0000_0000_0000_0000);
    if ulid_text(a, x) == ulid_text(b, y) {
        lemma_base32_differ(ulid_number(a, x), ulid_number(b, y), 26);
    }
}

} // verus!
