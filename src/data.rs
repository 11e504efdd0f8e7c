//! Plain data carried by the protocol: protocol versions and byte strings.

use base64::prelude::BASE64_STANDARD_NO_PAD;
use base64::Engine;
use vstd::prelude::*;

use crate::error::{Error, ErrorCode};

verus! {

/// A protocol version packed as `major << 24 | minor << 16 | revision`.
#[derive(Copy, Clone, Debug, Hash, PartialEq, Eq, Structural)]
pub struct Version(u32);

/// The packed value of the triple `(major, minor, revision)`.
pub open spec fn pack_version(major: u8, minor: u8, revision: u16) -> u32 {
    (major as u32) << 24u32 | (minor as u32) << 16u32 | (revision as u32)
}

pub open spec fn major_of(x: u32) -> u8 {
    (x >> 24u32) as u8
}

pub open spec fn minor_of(x: u32) -> u8 {
    (x >> 16u32) as u8
}

pub open spec fn revision_of(x: u32) -> u16 {
    x as u16
}

impl View for Version {
    type V = u32;

    closed spec fn view(&self) -> u32 {
        self.0
    }
}

impl Version {
    pub fn from_encoded(val: u32) -> (r: Self)
        ensures
            r@ == val,
    {
        Version(val)
    }

    /// The version packed in `x`, when `x` fits in 32 bits.
    pub fn from_u64(x: u64) -> (r: Option<Self>)
        ensures
            r is Some <==> x <= u32::MAX,
            r matches Some(v) ==> v@ == x,
    {
        if x <= u32::MAX as u64 {
            Some(Version(x as u32))
        } else {
            None
        }
    }

    pub fn encoded(self) -> (r: u32)
        ensures
            r == self@,
    {
        self.0
    }

    pub fn from_parts(major: u8, minor: u8, revision: u16) -> (r: Self)
        ensures
            r@ == pack_version(major, minor, revision),
    {
        Version((major as u32) << 24u32 | (minor as u32) << 16u32 | (revision as u32))
    }

    pub fn major(self) -> (r: u8)
        ensures
            r == major_of(self@),
    {
        (self.0 >> 24u32) as u8
    }

    pub fn minor(self) -> (r: u8)
        ensures
            r == minor_of(self@),
    {
        (self.0 >> 16u32) as u8
    }

    pub fn revision(self) -> (r: u16)
        ensures
            r == revision_of(self@),
    {
        self.0 as u16
    }
}

/// The components of a packed version are the ones it was packed from.
pub proof fn lemma_pack_unpack(major: u8, minor: u8, revision: u16)
    ensures
        major_of(pack_version(major, minor, revision)) == major,
        minor_of(pack_version(major, minor, revision)) == minor,
        revision_of(pack_version(major, minor, revision)) == revision,
{
    assert(((((major as u32) << 24u32 | (minor as u32) << 16u32 | (revision as u32)) >> 24u32) as u8) == major) by (bit_vector);
    assert(((((major as u32) << 24u32 | (minor as u32) << 16u32 | (revision as u32)) >> 16u32) as u8) == minor) by (bit_vector);
    assert((((major as u32) << 24u32 | (minor as u32) << 16u32 | (revision as u32)) as u16) == revision) by (bit_vector);
}

/// Every packed value is the packing of its own components.
pub proof fn lemma_unpack_pack(x: u32)
    ensures
        pack_version(major_of(x), minor_of(x), revision_of(x)) == x,
{
    assert((((x >> 24u32) as u8) as u32) << 24u32 | (((x >> 16u32) as u8) as u32) << 16u32 | ((x as u16) as u32) == x) by (bit_vector);
}


/// Why one dot-separated component of a version string is not a number.
#[derive(Copy, Clone, Debug, Hash, PartialEq, Eq, Structural)]
pub enum ComponentError {
    Empty,
    InvalidDigit,
    PosOverflow,
}

/// Why a string is not a version.
#[derive(Copy, Clone, Debug, Hash, PartialEq, Eq, Structural)]
pub enum VersionFromStringError {
    MissingComponents,
    TooManyComponents,
    InvalidComponent(ComponentError),
}

pub open spec fn is_digit(c: char) -> bool {
    '0' <= c && c <= '9'
}

pub open spec fn digit_char(d: nat) -> char {
    ((d + 48) as u8) as char
}

pub open spec fn digit_value(c: char) -> nat {
    ((c as u32) - 48) as nat
}

/// The decimal rendering of `n`, without leading zeros.
pub open spec fn decimal(n: nat) -> Seq<char>
    decreases n,
{
    if n < 10 {
        seq![digit_char(n)]
    } else {
        decimal(n / 10).push(digit_char(n % 10))
    }
}

/// The number that a string of decimal digits denotes.
pub open spec fn digits_value(s: Seq<char>) -> nat
    decreases s.len(),
{
    if s.len() == 0 {
        0
    } else {
        digits_value(s.drop_last()) * 10 + digit_value(s.last())
    }
}

pub open spec fn all_digits(s: Seq<char>) -> bool {
    forall|i: int| 0 <= i < s.len() ==> is_digit(#[trigger] s[i])
}

/// Where the run of digits of `d` that goes on from `j` ends.
pub open spec fn digit_run(d: Seq<char>, j: int) -> int
    decreases d.len() - j,
{
    if j < 0 || j >= d.len() {
        d.len() as int
    } else if !is_digit(d[j]) {
        j
    } else {
        digit_run(d, j + 1)
    }
}

/// An unsigned number no larger than `max`: an optional `+`, then one or
/// more decimal digits. The characters are read from the left and the first
/// problem met is the error: a value past `max` within the leading digits,
/// else a character that is not a digit.
pub open spec fn parse_unsigned(s: Seq<char>, max: nat) -> Result<nat, ComponentError> {
    if s.len() == 0 {
        Err(ComponentError::Empty)
    } else {
        let d = if s[0] == '+' { s.drop_first() } else { s };
        let k = digit_run(d, 0);
        if d.len() == 0 {
            Err(ComponentError::InvalidDigit)
        } else if digits_value(d.subrange(0, k)) > max {
            Err(ComponentError::PosOverflow)
        } else if k < d.len() {
            Err(ComponentError::InvalidDigit)
        } else {
            Ok(digits_value(d))
        }
    }
}

proof fn lemma_digit_run_bounds(d: Seq<char>, j: int)
    requires
        0 <= j <= d.len(),
    ensures
        j <= digit_run(d, j) <= d.len(),
        all_digits(d) ==> digit_run(d, j) == d.len(),
    decreases d.len() - j,
{
    if j < d.len() {
        lemma_digit_run_bounds(d, j + 1);
    }
}

/// `s` cut at every `.`; there is always at least one piece.
pub open spec fn split_dots(s: Seq<char>) -> Seq<Seq<char>>
    decreases s.len(),
{
    if s.len() == 0 {
        seq![Seq::<char>::empty()]
    } else {
        let p = split_dots(s.drop_last());
        if s.last() == '.' {
            p.push(Seq::<char>::empty())
        } else if p.len() == 0 {
            p
        } else {
            p.update(p.len() - 1, p.last().push(s.last()))
        }
    }
}

proof fn lemma_split_nonempty(s: Seq<char>)
    ensures
        split_dots(s).len() >= 1,
    decreases s.len(),
{
    if s.len() > 0 {
        lemma_split_nonempty(s.drop_last());
    }
}

/// The text of a version: `major.minor.revision` in decimal.
pub open spec fn render_version(x: u32) -> Seq<char> {
    decimal(major_of(x) as nat) + seq!['.'] + decimal(minor_of(x) as nat) + seq!['.'] + decimal(
        revision_of(x) as nat,
    )
}

/// What parsing a version string gives: the components are read from the
/// left, and the first problem met is the error.
pub open spec fn parse_version(s: Seq<char>) -> Result<u32, VersionFromStringError> {
    let p = split_dots(s);
    match parse_unsigned(p[0], 255) {
        Err(e) => Err(VersionFromStringError::InvalidComponent(e)),
        Ok(a) => if p.len() < 2 {
            Err(VersionFromStringError::MissingComponents)
        } else {
            match parse_unsigned(p[1], 255) {
                Err(e) => Err(VersionFromStringError::InvalidComponent(e)),
                Ok(b) => if p.len() < 3 {
                    Err(VersionFromStringError::MissingComponents)
                } else {
                    match parse_unsigned(p[2], 65535) {
                        Err(e) => Err(VersionFromStringError::InvalidComponent(e)),
                        Ok(c) => if p.len() > 3 {
                            Err(VersionFromStringError::TooManyComponents)
                        } else {
                            Ok(pack_version(a as u8, b as u8, c as u16))
                        },
                    }
                },
            }
        },
    }
}

/// Relies on String::push: the character is appended at the end.
#[verifier::external_body]
fn push_char(s: &mut String, c: char)
    ensures
        final(s)@ == old(s)@.push(c),
{
    s.push(c)
}

fn write_decimal(out: &mut String, n: u16)
    ensures
        final(out)@ == old(out)@ + decimal(n as nat),
    decreases n,
{
    let ghost start = out@;
    if n >= 10 {
        write_decimal(out, n / 10);
    }
    let d: u8 = (n % 10) as u8;
    push_char(out, (d + 48) as char);
    assert(out@ =~= start + decimal(n as nat));
}

impl Version {
    /// The text `major.minor.revision`.
    pub fn to_string(&self) -> (r: String)
        ensures
            r@ == render_version(self@),
    {
        let mut out = String::new();
        write_decimal(&mut out, self.major() as u16);
        push_char(&mut out, '.');
        write_decimal(&mut out, self.minor() as u16);
        push_char(&mut out, '.');
        write_decimal(&mut out, self.revision());
        assert(out@ =~= render_version(self@));
        out
    }
}


pub open spec fn piece_views(v: Seq<Vec<char>>) -> Seq<Seq<char>> {
    v.map_values(|x: Vec<char>| x@)
}

/// The pieces of `s` between dots.
fn split_components(s: &str) -> (r: Vec<Vec<char>>)
    ensures
        piece_views(r@) == split_dots(s@),
{
    let n = s.unicode_len();
    let mut done: Vec<Vec<char>> = Vec::new();
    let mut cur: Vec<char> = Vec::new();
    let mut i: usize = 0;
    assert(s@.subrange(0, 0) =~= Seq::<char>::empty());
    assert(piece_views(done@).push(cur@) =~= split_dots(s@.subrange(0, 0)));
    while i < n
        invariant
            n == s@.len(),
            i <= n,
            piece_views(done@).push(cur@) == split_dots(s@.subrange(0, i as int)),
        decreases n - i,
    {
        let c = s.get_char(i);
        let ghost prev = s@.subrange(0, i as int);
        assert(s@.subrange(0, i + 1).drop_last() =~= prev);
        proof {
            lemma_split_nonempty(prev);
        }
        if c == '.' {
            done.push(cur);
            cur = Vec::new();
            assert(piece_views(done@).push(cur@) =~= split_dots(prev).push(Seq::<char>::empty()));
        } else {
            cur.push(c);
            assert(piece_views(done@).push(cur@) =~= split_dots(prev).update(
                split_dots(prev).len() - 1,
                split_dots(prev).last().push(c),
            ));
        }
        i = i + 1;
    }
    assert(s@.subrange(0, n as int) =~= s@);
    done.push(cur);
    done
}

proof fn lemma_digits_value_grows(s: Seq<char>, k: int)
    requires
        0 <= k <= s.len(),
    ensures
        digits_value(s.subrange(0, k)) <= digits_value(s),
    decreases s.len(),
{
    if k < s.len() {
        assert(s.drop_last().subrange(0, k) =~= s.subrange(0, k));
        lemma_digits_value_grows(s.drop_last(), k);
    } else {
        assert(s.subrange(0, k) =~= s);
    }
}

/// Reads one component as a number no larger than `max`.
fn parse_component(c: &Vec<char>, max: u32) -> (r: Result<u32, ComponentError>)
    requires
        max <= 65535,
    ensures
        match r {
            Ok(v) => parse_unsigned(c@, max as nat) == Ok::<nat, ComponentError>(v as nat),
            Err(e) => parse_unsigned(c@, max as nat) == Err::<nat, ComponentError>(e),
        },
{
    let n = c.len();
    if n == 0 {
        return Err(ComponentError::Empty);
    }
    let start: usize = if c[0] == '+' { 1 } else { 0 };
    let ghost d = if c@[0] == '+' { c@.drop_first() } else { c@ };
    assert(d =~= c@.subrange(start as int, n as int));
    if start == n {
        return Err(ComponentError::InvalidDigit);
    }
    let mut acc: u32 = 0;
    let mut j: usize = start;
    assert(d.subrange(0, 0) =~= Seq::<char>::empty());
    while j < n
        invariant
            start <= j <= n,
            start < n,
            n == c@.len(),
            d == c@.subrange(start as int, n as int),
            d == (if c@[0] == '+' { c@.drop_first() } else { c@ }),
            digit_run(d, 0) == digit_run(d, j - start),
            max <= 65535,
            acc <= max,
            acc as nat == digits_value(d.subrange(0, j - start)),
        decreases n - j,
    {
        let ghost p = d.subrange(0, j - start);
        assert(d.subrange(0, j + 1 - start).drop_last() =~= p);
        assert(d[j - start] == c@[j as int]);
        if !('0' <= c[j] && c[j] <= '9') {
            assert(digit_run(d, j - start) == j - start);
            return Err(ComponentError::InvalidDigit);
        }
        assert(is_digit(d[j - start]));
        let digit: u32 = (c[j] as u32) - 48;
        let next: u32 = acc * 10 + digit;
        assert(digits_value(d.subrange(0, j + 1 - start)) == next as nat);
        if next > max {
            proof {
                let k = digit_run(d, 0);
                lemma_digit_run_bounds(d, j + 1 - start);
                assert(d.subrange(0, k).subrange(0, j + 1 - start) =~= d.subrange(0, j + 1 - start));
                lemma_digits_value_grows(d.subrange(0, k), j + 1 - start);
            }
            return Err(ComponentError::PosOverflow);
        }
        acc = next;
        j = j + 1;
    }
    assert(d.subrange(0, n - start) =~= d);
    assert(digit_run(d, 0) == d.len());
    Ok(acc)
}

impl Version {
    /// Reads `major.minor.revision`.
    pub fn from_str(s: &str) -> (r: Result<Version, VersionFromStringError>)
        ensures
            match r {
                Ok(v) => parse_version(s@) == Ok::<u32, VersionFromStringError>(v@),
                Err(e) => parse_version(s@) == Err::<u32, VersionFromStringError>(e),
            },
    {
        let parts = split_components(s);
        let ghost p = split_dots(s@);
        proof {
            lemma_split_nonempty(s@);
        }
        assert(p[0] == parts@[0]@);
        let major = match parse_component(&parts[0], 255) {
            Ok(v) => v,
            Err(e) => return Err(VersionFromStringError::InvalidComponent(e)),
        };
        if parts.len() < 2 {
            return Err(VersionFromStringError::MissingComponents);
        }
        assert(p[1] == parts@[1]@);
        let minor = match parse_component(&parts[1], 255) {
            Ok(v) => v,
            Err(e) => return Err(VersionFromStringError::InvalidComponent(e)),
        };
        if parts.len() < 3 {
            return Err(VersionFromStringError::MissingComponents);
        }
        assert(p[2] == parts@[2]@);
        let revision = match parse_component(&parts[2], 65535) {
            Ok(v) => v,
            Err(e) => return Err(VersionFromStringError::InvalidComponent(e)),
        };
        if parts.len() > 3 {
            return Err(VersionFromStringError::TooManyComponents);
        }
        Ok(Version::from_parts(major as u8, minor as u8, revision as u16))
    }
}


pub open spec fn dot_free(s: Seq<char>) -> bool {
    forall|i: int| 0 <= i < s.len() ==> #[trigger] s[i] != '.'
}

proof fn lemma_decimal(n: nat)
    ensures
        decimal(n).len() > 0,
        all_digits(decimal(n)),
        dot_free(decimal(n)),
        digits_value(decimal(n)) == n,
    decreases n,
{
    let d = decimal(n);
    if n < 10 {
        assert(d.drop_last() =~= Seq::<char>::empty());
        assert(digits_value(d.drop_last()) == 0);
        assert(digit_value(digit_char(n)) == n);
    } else {
        lemma_decimal(n / 10);
        assert(d.drop_last() =~= decimal(n / 10));
        assert(d.last() == digit_char(n % 10));
        assert(digit_value(digit_char(n % 10)) == n % 10);
        assert(digits_value(d) == digits_value(decimal(n / 10)) * 10 + n % 10);
        assert((n / 10) * 10 + n % 10 == n);
        assert forall|i: int| 0 <= i < d.len() implies is_digit(#[trigger] d[i]) by {
            if i < d.len() - 1 {
                assert(d[i] == decimal(n / 10)[i]);
            }
        }
    }
    assert forall|i: int| 0 <= i < d.len() implies #[trigger] d[i] != '.' by {
        assert(is_digit(d[i]));
    }
}

proof fn lemma_parse_decimal(n: nat, max: nat)
    requires
        n <= max,
    ensures
        parse_unsigned(decimal(n), max) == Ok::<nat, ComponentError>(n),
{
    lemma_decimal(n);
    assert(is_digit(decimal(n)[0]));
    lemma_digit_run_bounds(decimal(n), 0);
    assert(decimal(n).subrange(0, decimal(n).len() as int) =~= decimal(n));
}

proof fn lemma_split_dot(s: Seq<char>)
    ensures
        split_dots(s + seq!['.']) == split_dots(s).push(Seq::<char>::empty()),
{
    assert((s + seq!['.']).drop_last() =~= s);
}

proof fn lemma_split_plain(s: Seq<char>, t: Seq<char>)
    requires
        dot_free(t),
    ensures
        split_dots(s + t) == split_dots(s).update(
            split_dots(s).len() - 1,
            split_dots(s).last() + t,
        ),
    decreases t.len(),
{
    lemma_split_nonempty(s);
    let q = split_dots(s);
    if t.len() == 0 {
        assert(s + t =~= s);
        assert(q.last() + t =~= q.last());
        assert(q.update(q.len() - 1, q.last() + t) =~= q);
    } else {
        let t0 = t.drop_last();
        assert(dot_free(t0)) by {
            assert forall|i: int| 0 <= i < t0.len() implies #[trigger] t0[i] != '.' by {
                assert(t0[i] == t[i]);
            }
        }
        lemma_split_plain(s, t0);
        assert((s + t).drop_last() =~= s + t0);
        assert((s + t).last() == t.last());
        let p = split_dots(s + t0);
        assert((q.last() + t0).push(t.last()) =~= q.last() + t);
        assert(p.update(p.len() - 1, p.last().push(t.last())) =~= q.update(
            q.len() - 1,
            q.last() + t,
        ));
    }
}

/// Rendering a version as text and reading that text back gives the
/// version, with the components it was built from.
pub proof fn lemma_version_text_round_trip(major: u8, minor: u8, revision: u16)
    ensures
        parse_version(render_version(pack_version(major, minor, revision))) == Ok::<
            u32,
            VersionFromStringError,
        >(pack_version(major, minor, revision)),
        major_of(pack_version(major, minor, revision)) == major,
        minor_of(pack_version(major, minor, revision)) == minor,
        revision_of(pack_version(major, minor, revision)) == revision,
{
    let v = pack_version(major, minor, revision);
    lemma_pack_unpack(major, minor, revision);
    let x = decimal(major as nat);
    let y = decimal(minor as nat);
    let z = decimal(revision as nat);
    lemma_decimal(major as nat);
    lemma_decimal(minor as nat);
    lemma_decimal(revision as nat);
    let e = Seq::<char>::empty();
    lemma_split_plain(e, x);
    assert(e + x =~= x);
    assert(split_dots(e) =~= seq![e]);
    assert(seq![e].update(0, e + x) =~= seq![x]);
    lemma_split_dot(x);
    let s1 = x + seq!['.'];
    lemma_split_plain(s1, y);
    assert(seq![x, e].update(1, e + y) =~= seq![x, y]);
    assert(seq![x].push(e) =~= seq![x, e]);
    let s2 = s1 + y;
    lemma_split_dot(s2);
    let s3 = s2 + seq!['.'];
    assert(seq![x, y].push(e) =~= seq![x, y, e]);
    lemma_split_plain(s3, z);
    assert(seq![x, y, e].update(2, e + z) =~= seq![x, y, z]);
    assert(render_version(v) =~= s3 + z);
    let p = split_dots(render_version(v));
    assert(p =~= seq![x, y, z]);
    lemma_parse_decimal(major as nat, 255);
    lemma_parse_decimal(minor as nat, 255);
    lemma_parse_decimal(revision as nat, 65535);
}


/// A length-implicit byte string: keys, IVs, tags and challenges.
#[derive(Clone, Debug, Hash, PartialEq, Eq)]
pub struct Bytes(Vec<u8>);

impl View for Bytes {
    type V = Seq<u8>;

    closed spec fn view(&self) -> Seq<u8> {
        self.0@
    }
}

impl From<Vec<u8>> for Bytes {
    fn from(value: Vec<u8>) -> (r: Bytes) {
        Bytes(value)
    }
}

impl vstd::std_specs::convert::FromSpecImpl<Vec<u8>> for Bytes {
    open spec fn obeys_from_spec() -> bool {
        true
    }

    closed spec fn from_spec(v: Vec<u8>) -> Bytes {
        Bytes(v)
    }
}

impl From<&[u8]> for Bytes {
    fn from(value: &[u8]) -> (r: Bytes) {
        Bytes(vstd::slice::slice_to_vec(value))
    }
}

impl vstd::std_specs::convert::FromSpecImpl<&[u8]> for Bytes {
    open spec fn obeys_from_spec() -> bool {
        false
    }

    closed spec fn from_spec(v: &[u8]) -> Bytes {
        choose|b: Bytes| b@ == v@
    }
}

/// The unpadded standard-alphabet base64 text of `b`.
pub uninterp spec fn base64_text(b: Seq<u8>) -> Seq<char>;

/// What unpadded standard-alphabet base64 decoding makes of `s`, if it is
/// valid base64.
pub uninterp spec fn base64_bytes(s: Seq<char>) -> Option<Seq<u8>>;

/// Relies on base64's `STANDARD_NO_PAD` engine `encode`: the text is a
/// function of the bytes, holds no padding character, and the same engine
/// decodes it back to the bytes.
#[verifier::external_body]
fn encode_unpadded(b: &[u8]) -> (r: String)
    ensures
        r@ == base64_text(b@),
        base64_bytes(r@) == Some(b@),
        forall|i: int| 0 <= i < r@.len() ==> r@[i] != '=',
{
    BASE64_STANDARD_NO_PAD.encode(b)
}

/// Relies on base64's `STANDARD_NO_PAD` engine `decode`: the outcome is a
/// function of the text. The engine refuses padding and trailing bits, so it
/// accepts exactly the texts that its `encode` produces.
#[verifier::external_body]
fn decode_unpadded(s: &str) -> (r: Option<Vec<u8>>)
    ensures
        match r {
            Some(v) => base64_bytes(s@) == Some(v@) && base64_text(v@) == s@,
            None => base64_bytes(s@) is None && forall|b: Seq<u8>| base64_text(b) != s@,
        },
{
    BASE64_STANDARD_NO_PAD.decode(s).ok()
}

/// `s` without its trailing `=` characters.
pub open spec fn strip_padding(s: Seq<char>) -> Seq<char>
    decreases s.len(),
{
    if s.len() > 0 && s.last() == '=' {
        strip_padding(s.drop_last())
    } else {
        s
    }
}

/// The bytes that base64 text stands for, padded or not.
pub open spec fn bytes_of_text(s: Seq<char>) -> Option<Seq<u8>> {
    base64_bytes(strip_padding(s))
}

/// `k` padding characters.
pub open spec fn padding(k: nat) -> Seq<char> {
    Seq::new(k, |i: int| '=')
}

impl Bytes {
    pub fn new(underlying: Vec<u8>) -> (r: Bytes)
        ensures
            r@ == underlying@,
    {
        Bytes(underlying)
    }

    pub fn into_inner(self) -> (r: Vec<u8>)
        ensures
            r@ == self@,
    {
        self.0
    }

    pub fn as_slice(&self) -> (r: &[u8])
        ensures
            r@ == self@,
    {
        self.0.as_slice()
    }

    pub fn len(&self) -> (r: usize)
        ensures
            r == self@.len(),
    {
        self.0.len()
    }

    /// Sets the byte at `i` to `b`.
    pub fn set(&mut self, i: usize, b: u8)
        requires
            i < old(self)@.len(),
        ensures
            final(self)@ == old(self)@.update(i as int, b),
    {
        self.0.set(i, b);
    }

    /// A second byte string with the same contents.
    pub fn duplicate(&self) -> (r: Bytes)
        ensures
            r@ == self@,
    {
        Bytes(self.0.clone())
    }

    /// Unpadded standard-alphabet base64. The text, with or without any
    /// amount of padding, decodes back to these bytes.
    pub fn to_base64(&self) -> (r: String)
        ensures
            r@ == base64_text(self@),
            forall|k: nat| #[trigger] bytes_of_text(r@ + padding(k)) == Some(self@),
    {
        let r = encode_unpadded(self.0.as_slice());
        proof {
            assert(strip_padding(r@) == r@);
            assert forall|k: nat| #[trigger] bytes_of_text(r@ + padding(k)) == Some(self@) by {
                lemma_strip_padded(r@, k);
            }
        }
        r
    }

    /// Reads standard-alphabet base64; trailing padding is accepted and
    /// ignored.
    pub fn from_base64(s: &str) -> (r: Result<Bytes, Error>)
        ensures
            match r {
                Ok(b) => bytes_of_text(s@) == Some(b@) && base64_text(b@) == strip_padding(s@),
                Err(e) => {
                    &&& bytes_of_text(s@) is None
                    &&& forall|b: Seq<u8>| base64_text(b) != strip_padding(s@)
                    &&& e.spec_code() == ErrorCode::Malformed
                },
            },
    {
        let n = s.unicode_len();
        let mut k: usize = n;
        assert(s@.subrange(0, n as int) =~= s@);
        while k > 0 && s.get_char(k - 1) == '='
            invariant
                k <= n,
                n == s@.len(),
                strip_padding(s@) == strip_padding(s@.subrange(0, k as int)),
            decreases k,
        {
            assert(s@.subrange(0, k as int).drop_last() =~= s@.subrange(0, k - 1));
            k = k - 1;
        }
        assert(strip_padding(s@) == s@.subrange(0, k as int));
        let body = s.substring_char(0, k);
        match decode_unpadded(body) {
            Some(v) => Ok(Bytes(v)),
            None => Err(Error::new(ErrorCode::Malformed, "not standard base64")),
        }
    }
}

proof fn lemma_strip_padded(s: Seq<char>, k: nat)
    ensures
        strip_padding(s + padding(k)) == strip_padding(s),
    decreases k,
{
    if k == 0 {
        assert(s + padding(k) =~= s);
    } else {
        assert((s + padding(k)).drop_last() =~= s + padding((k - 1) as nat));
        lemma_strip_padded(s, (k - 1) as nat);
    }
}

/// Base64 text decodes to the same bytes with any amount of trailing
/// padding as without it.
pub proof fn lemma_padding_ignored(s: Seq<char>, k: nat)
    ensures
        bytes_of_text(s + padding(k)) == bytes_of_text(s),
{
    lemma_strip_padded(s, k);
}

/// Every packed version reads back from its text as itself.
pub proof fn lemma_encoded_text_round_trip(x: u32)
    ensures
        parse_version(render_version(x)) == Ok::<u32, VersionFromStringError>(x),
{
    lemma_unpack_pack(x);
    lemma_version_text_round_trip(major_of(x), minor_of(x), revision_of(x));
}

} // verus!
