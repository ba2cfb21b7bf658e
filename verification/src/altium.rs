//! The building blocks of Altium's binary library streams: ordered key/value
//! parameter lists, length-prefixed blocks, Pascal strings, coordinates, and
//! the names and unique IDs that records carry.
use vstd::prelude::*;
use vstd::utf8::encode_utf8;

use crate::text::{
    chars_of, i64_to_string, int_decimal, push_char, push_str, string_from_chars, trim, trim_chars,
};

verus! {

/// The raw coordinate units in one schematic grid unit.
pub const COORD_UNIT: i64 = 100000;

/// A key/value parameter as text.
pub type ParamView = (Seq<char>, Seq<char>);

/// The parameters of a record, in the order written.
#[derive(Debug)]
pub struct Params {
    pub entries: Vec<(String, String)>,
}

impl View for Params {
    type V = Seq<ParamView>;

    open spec fn view(&self) -> Seq<ParamView> {
        Seq::new(self.entries@.len(), |i: int| (self.entries@[i].0@, self.entries@[i].1@))
    }
}

/// `|KEY=VALUE` for each parameter, in order.
pub open spec fn param_text(ps: Seq<ParamView>) -> Seq<char>
    decreases ps.len(),
{
    if ps.len() == 0 {
        Seq::empty()
    } else {
        param_text(ps.drop_last()) + seq!['|'] + ps.last().0 + seq!['='] + ps.last().1
    }
}

/// A boolean parameter: `T` when true, left out when false.
pub open spec fn bool_param(key: Seq<char>, value: bool) -> Seq<ParamView> {
    if value {
        seq![(key, seq!['T'])]
    } else {
        Seq::empty()
    }
}

/// An integer parameter that is left out when zero.
pub open spec fn non_zero_param(key: Seq<char>, value: int) -> Seq<ParamView> {
    if value != 0 {
        seq![(key, int_decimal(value))]
    } else {
        Seq::empty()
    }
}

/// Integer division rounding toward zero, as Rust's `/` on integers.
pub open spec fn trunc_div(a: int, b: int) -> int {
    if a >= 0 {
        a / b
    } else {
        -((-a) / b)
    }
}

/// The remainder that goes with `trunc_div`, as Rust's `%` on integers.
pub open spec fn trunc_rem(a: int, b: int) -> int {
    a - b * trunc_div(a, b)
}

/// A coordinate parameter: the whole grid units under `key` and the
/// fraction under `key_FRAC`, each left out when zero.
#[verifier::opaque]
pub open spec fn coord_params(key: Seq<char>, raw: int) -> Seq<ParamView> {
    non_zero_param(key, trunc_div(raw, COORD_UNIT as int)) + non_zero_param(
        key + "_FRAC"@,
        trunc_rem(raw, COORD_UNIT as int),
    )
}

impl Params {
    pub fn new() -> (p: Params)
        ensures
            p@ == Seq::<ParamView>::empty(),
    {
        let p = Params { entries: Vec::new() };
        assert(p@ =~= Seq::<ParamView>::empty());
        p
    }

    /// Appends `key=value`.
    pub fn push(&mut self, key: &str, value: &str)
        ensures
            final(self)@ == old(self)@.push((key@, value@)),
    {
        self.entries.push((String::from_str(key), String::from_str(value)));
        assert(self@ =~= old(self)@.push((key@, value@)));
    }

    /// Appends an integer parameter.
    pub fn push_int(&mut self, key: &str, value: i64)
        ensures
            final(self)@ == old(self)@.push((key@, int_decimal(value as int))),
    {
        let text = i64_to_string(value);
        self.push(key, text.as_str());
    }

    /// Appends `key=T` when `value` holds.
    pub fn push_bool(&mut self, key: &str, value: bool)
        ensures
            final(self)@ == old(self)@ + bool_param(key@, value),
    {
        if value {
            self.push(key, "T");
            proof {
                reveal_strlit("T");
                assert("T"@ =~= seq!['T']);
            }
            assert(self@ =~= old(self)@ + bool_param(key@, value));
        } else {
            assert(old(self)@ + bool_param(key@, value) =~= old(self)@);
        }
    }

    /// Appends an integer parameter unless it is zero.
    pub fn push_non_zero(&mut self, key: &str, value: i32)
        ensures
            final(self)@ == old(self)@ + non_zero_param(key@, value as int),
    {
        if value != 0 {
            self.push_int(key, value as i64);
            assert(self@ =~= old(self)@ + non_zero_param(key@, value as int));
        } else {
            assert(old(self)@ + non_zero_param(key@, value as int) =~= old(self)@);
        }
    }

    /// Appends a coordinate: its whole grid units and its fraction.
    pub fn push_coord(&mut self, key: &str, raw: i64)
        ensures
            final(self)@ == old(self)@ + coord_params(key@, raw as int),
    {
        let wide = raw as i128;
        let unit = COORD_UNIT as i128;
        let whole: i128 = if wide >= 0 {
            wide / unit
        } else {
            -((-wide) / unit)
        };
        let frac: i128 = wide - unit * whole;
        assert(whole == trunc_div(raw as int, COORD_UNIT as int));
        assert(-100000 < frac < 100000) by (nonlinear_arith)
            requires
                whole == trunc_div(wide as int, 100000),
                frac == wide - 100000 * whole,
                unit == 100000,
        ;
        assert(-100000000000000 <= whole <= 100000000000000) by (nonlinear_arith)
            requires
                whole == trunc_div(wide as int, 100000),
                -9223372036854775808 <= wide <= 9223372036854775807,
        ;
        let ghost before = self@;
        if whole != 0 {
            self.push_int(key, whole as i64);
        }
        assert(self@ =~= before + non_zero_param(key@, trunc_div(raw as int, COORD_UNIT as int)));
        let ghost mid = self@;
        let mut frac_key = String::from_str(key);
        push_str(&mut frac_key, "_FRAC");
        if frac != 0 {
            self.push_int(frac_key.as_str(), frac as i64);
        }
        assert(self@ =~= mid + non_zero_param(
            key@ + "_FRAC"@,
            trunc_rem(raw as int, COORD_UNIT as int),
        ));
        reveal(coord_params);
        assert(self@ =~= before + coord_params(key@, raw as int));
    }

    /// The parameters as text.
    pub fn to_text(&self) -> (r: String)
        ensures
            r@ == param_text(self@),
    {
        let mut text = String::new();
        let mut i: usize = 0;
        while i < self.entries.len()
            invariant
                i <= self.entries@.len(),
                text@ == param_text(self@.take(i as int)),
            decreases self.entries.len() - i,
        {
            let ghost before = text@;
            push_char(&mut text, '|');
            push_str(&mut text, self.entries[i].0.as_str());
            push_char(&mut text, '=');
            push_str(&mut text, self.entries[i].1.as_str());
            assert(self@.take(i + 1).drop_last() =~= self@.take(i as int));
            assert(self@.take(i + 1).last() == self@[i as int]);
            assert(text@ =~= before + seq!['|'] + self@[i as int].0 + seq!['='] + self@[i as int].1);
            i += 1;
        }
        assert(self@.take(i as int) =~= self@);
        text
    }
}

// ---------------------------------------------------------------------------
// Blocks and integers
// ---------------------------------------------------------------------------

/// The two little-endian bytes of a 16-bit two's-complement integer.
#[verifier::opaque]
pub open spec fn le_i16(x: int) -> Seq<u8> {
    let u = if x < 0 {
        x + 65536
    } else {
        x
    };
    seq![(u % 256) as u8, (u / 256) as u8]
}

/// The four little-endian bytes of a 32-bit two's-complement integer.
#[verifier::opaque]
pub open spec fn le_i32(x: int) -> Seq<u8> {
    let u = if x < 0 {
        x + 4294967296
    } else {
        x
    };
    seq![(u % 256) as u8, ((u / 256) % 256) as u8, ((u / 65536) % 256) as u8, (u / 16777216) as u8]
}

/// A block header: the payload length in the low three bytes (modulo 2^24),
/// little-endian, then the flag byte.
#[verifier::opaque]
pub open spec fn block_header(flag: u8, len: nat) -> Seq<u8> {
    seq![(len % 256) as u8, ((len / 256) % 256) as u8, ((len / 65536) % 256) as u8, flag]
}

/// A length-prefixed block.
pub open spec fn block(flag: u8, payload: Seq<u8>) -> Seq<u8> {
    block_header(flag, payload.len()) + payload
}

/// The payload of a text parameter block: the UTF-8 text and a NUL.
#[verifier::opaque]
pub open spec fn cstring_payload(ps: Seq<ParamView>) -> Seq<u8> {
    encode_utf8(param_text(ps)).push(0u8)
}

/// A Pascal short string: a length byte, then at most 255 bytes.
#[verifier::opaque]
pub open spec fn pascal(bytes: Seq<u8>) -> Seq<u8> {
    let n = if bytes.len() < 255 {
        bytes.len()
    } else {
        255
    };
    seq![n as u8] + bytes.take(n as int)
}

/// Blocks one after another.
pub open spec fn concat_blocks(rs: Seq<(u8, Seq<u8>)>) -> Seq<u8>
    decreases rs.len(),
{
    if rs.len() == 0 {
        Seq::empty()
    } else {
        concat_blocks(rs.drop_last()) + block(rs.last().0, rs.last().1)
    }
}

/// Reads blocks back: each a header giving the payload length in its low
/// three bytes and the flag in the fourth, then the payload. Nothing when
/// the bytes end inside a block.
pub open spec fn parse_blocks(bytes: Seq<u8>) -> Option<Seq<(u8, Seq<u8>)>>
    decreases bytes.len(),
{
    if bytes.len() == 0 {
        Some(Seq::empty())
    } else if bytes.len() < 4 {
        None
    } else {
        let n = bytes[0] as int + 256 * bytes[1] as int + 65536 * bytes[2] as int;
        if 4 + n > bytes.len() {
            None
        } else {
            match parse_blocks(bytes.subrange(4 + n, bytes.len() as int)) {
                Some(rest) => Some(seq![(bytes[3], bytes.subrange(4, 4 + n))] + rest),
                None => None,
            }
        }
    }
}

proof fn lemma_concat_blocks_first(rs: Seq<(u8, Seq<u8>)>)
    requires
        rs.len() > 0,
    ensures
        concat_blocks(rs) == block(rs[0].0, rs[0].1) + concat_blocks(rs.drop_first()),
    decreases rs.len(),
{
    if rs.len() == 1 {
        assert(rs.drop_last() =~= Seq::<(u8, Seq<u8>)>::empty());
        assert(rs.drop_first() =~= Seq::<(u8, Seq<u8>)>::empty());
        assert(block(rs[0].0, rs[0].1) + Seq::<u8>::empty() =~= block(rs[0].0, rs[0].1));
        assert(Seq::<u8>::empty() + block(rs[0].0, rs[0].1) =~= block(rs[0].0, rs[0].1));
    } else {
        lemma_concat_blocks_first(rs.drop_last());
        assert(rs.drop_last().drop_first() =~= rs.drop_first().drop_last());
        assert(rs.drop_first().last() == rs.last());
        assert(rs.drop_last()[0] == rs[0]);
        assert(block(rs[0].0, rs[0].1) + concat_blocks(rs.drop_first().drop_last()) + block(
            rs.last().0,
            rs.last().1,
        ) =~= block(rs[0].0, rs[0].1) + (concat_blocks(rs.drop_first().drop_last()) + block(
            rs.last().0,
            rs.last().1,
        )));
    }
}

proof fn lemma_length_bytes(n: int)
    requires
        0 <= n < 16777216,
    ensures
        ((n % 256) as u8) as int + 256 * (((n / 256) % 256) as u8) as int + 65536 * (((n / 65536)
            % 256) as u8) as int == n,
{
    assert((n % 256) + 256 * ((n / 256) % 256) + 65536 * ((n / 65536) % 256) == n)
        by (nonlinear_arith)
        requires
            0 <= n < 16777216,
    ;
}

proof fn lemma_parse_block_prefix(flag: u8, payload: Seq<u8>, rest: Seq<u8>)
    requires
        payload.len() < 16777216,
    ensures
        parse_blocks(block(flag, payload) + rest) == match parse_blocks(rest) {
            Some(rs) => Some(seq![(flag, payload)] + rs),
            None => None::<Seq<(u8, Seq<u8>)>>,
        },
{
    reveal(block_header);
    let b = block(flag, payload) + rest;
    let n = payload.len() as int;
    lemma_length_bytes(n);
    assert(b[0] as int + 256 * b[1] as int + 65536 * b[2] as int == n);
    assert(b[3] == flag);
    assert(b.subrange(4, 4 + n) =~= payload);
    assert(b.subrange(4 + n, b.len() as int) =~= rest);
}

/// Blocks written one after another read back as the same blocks, in
/// order, when every payload is shorter than 2^24 bytes.
pub proof fn lemma_blocks_read_back(rs: Seq<(u8, Seq<u8>)>)
    requires
        forall|i: int| 0 <= i < rs.len() ==> (#[trigger] rs[i]).1.len() < 16777216,
    ensures
        parse_blocks(concat_blocks(rs)) == Some(rs),
    decreases rs.len(),
{
    if rs.len() == 0 {
    } else {
        lemma_concat_blocks_first(rs);
        let tail = rs.drop_first();
        assert forall|i: int| 0 <= i < tail.len() implies (#[trigger] tail[i]).1.len()
            < 16777216 by {
            assert(tail[i] == rs[i + 1]);
        }
        lemma_blocks_read_back(tail);
        lemma_parse_block_prefix(rs[0].0, rs[0].1, concat_blocks(tail));
        assert(seq![(rs[0].0, rs[0].1)] + tail =~= rs);
    }
}

/// Bytes being written, in order.
#[derive(Debug)]
pub struct BinaryWriter {
    pub bytes: Vec<u8>,
}

impl BinaryWriter {
    pub fn new() -> (w: BinaryWriter)
        ensures
            w.bytes@ == Seq::<u8>::empty(),
    {
        BinaryWriter { bytes: Vec::new() }
    }

    pub fn write_u8(&mut self, b: u8)
        ensures
            final(self).bytes@ == old(self).bytes@.push(b),
    {
        self.bytes.push(b);
    }

    /// Appends bytes.
    pub fn write_bytes(&mut self, data: &[u8])
        ensures
            final(self).bytes@ == old(self).bytes@ + data@,
    {
        let mut i: usize = 0;
        while i < data.len()
            invariant
                i <= data@.len(),
                self.bytes@ == old(self).bytes@ + data@.take(i as int),
            decreases data.len() - i,
        {
            self.bytes.push(data[i]);
            assert(data@.take(i + 1) =~= data@.take(i as int).push(data@[i as int]));
            i += 1;
        }
        assert(data@.take(i as int) =~= data@);
    }

    /// A little-endian 16-bit integer.
    pub fn write_i16(&mut self, x: i16)
        ensures
            final(self).bytes@ == old(self).bytes@ + le_i16(x as int),
    {
        let u: u32 = if x < 0 {
            (x as i32 + 65536) as u32
        } else {
            x as u32
        };
        self.bytes.push((u % 256) as u8);
        self.bytes.push((u / 256) as u8);
        reveal(le_i16);
        assert(final(self).bytes@ =~= old(self).bytes@ + le_i16(x as int));
    }

    /// A little-endian 32-bit integer.
    pub fn write_i32(&mut self, x: i32)
        ensures
            final(self).bytes@ == old(self).bytes@ + le_i32(x as int),
    {
        let u: u64 = if x < 0 {
            (x as i64 + 4294967296) as u64
        } else {
            x as u64
        };
        self.bytes.push((u % 256) as u8);
        self.bytes.push(((u / 256) % 256) as u8);
        self.bytes.push(((u / 65536) % 256) as u8);
        self.bytes.push((u / 16777216) as u8);
        reveal(le_i32);
        assert(final(self).bytes@ =~= old(self).bytes@ + le_i32(x as int));
    }

    /// A block: its header, then its payload.
    pub fn write_block(&mut self, flag: u8, payload: &[u8])
        ensures
            final(self).bytes@ == old(self).bytes@ + block(flag, payload@),
    {
        let n = payload.len();
        let low = n % 16777216;
        self.bytes.push((low % 256) as u8);
        self.bytes.push(((low / 256) % 256) as u8);
        self.bytes.push(((low / 65536) % 256) as u8);
        self.bytes.push(flag);
        assert(low % 256 == n % 256) by (nonlinear_arith)
            requires
                low == n % 16777216,
        ;
        assert((low / 256) % 256 == (n / 256) % 256) by (nonlinear_arith)
            requires
                low == n % 16777216,
        ;
        assert((low / 65536) % 256 == (n / 65536) % 256) by (nonlinear_arith)
            requires
                low == n % 16777216,
        ;
        reveal(block_header);
        assert(self.bytes@ =~= old(self).bytes@ + block_header(flag, n as nat));
        self.write_bytes(payload);
        assert(final(self).bytes@ =~= old(self).bytes@ + block(flag, payload@));
    }

    /// A text parameter block.
    pub fn write_cstring_param_block(&mut self, params: &Params)
        ensures
            final(self).bytes@ == old(self).bytes@ + block(0, cstring_payload(params@)),
    {
        let text = params.to_text();
        let bytes = text.as_str().as_bytes();
        let mut payload: Vec<u8> = Vec::new();
        let mut i: usize = 0;
        while i < bytes.len()
            invariant
                i <= bytes@.len(),
                payload@ == bytes@.take(i as int),
            decreases bytes.len() - i,
        {
            payload.push(bytes[i]);
            assert(bytes@.take(i + 1) =~= bytes@.take(i as int).push(bytes@[i as int]));
            i += 1;
        }
        assert(bytes@.take(i as int) =~= bytes@);
        payload.push(0u8);
        reveal(cstring_payload);
        self.write_block(0, payload.as_slice());
    }

    /// A Pascal short string of the UTF-8 bytes of `s`.
    pub fn write_pascal_short_string(&mut self, s: &str)
        ensures
            final(self).bytes@ == old(self).bytes@ + pascal(encode_utf8(s@)),
    {
        let bytes = s.as_bytes();
        let n: usize = if bytes.len() < 255 {
            bytes.len()
        } else {
            255
        };
        self.bytes.push(n as u8);
        let mut i: usize = 0;
        while i < n
            invariant
                i <= n <= bytes@.len(),
                n <= 255,
                self.bytes@ == old(self).bytes@ + seq![n as u8] + bytes@.take(i as int),
            decreases n - i,
        {
            self.bytes.push(bytes[i]);
            assert(bytes@.take(i + 1) =~= bytes@.take(i as int).push(bytes@[i as int]));
            i += 1;
        }
        reveal(pascal);
        assert(self.bytes@ =~= old(self).bytes@ + pascal(encode_utf8(s@)));
    }

    /// A block holding a Pascal short string.
    pub fn write_string_block(&mut self, s: &str)
        ensures
            final(self).bytes@ == old(self).bytes@ + block(0, pascal(encode_utf8(s@))),
    {
        let mut inner = BinaryWriter::new();
        inner.write_pascal_short_string(s);
        assert(inner.bytes@ =~= pascal(encode_utf8(s@)));
        self.write_block(0, inner.bytes.as_slice());
    }

    pub fn into_inner(self) -> (r: Vec<u8>)
        ensures
            r@ == self.bytes@,
    {
        self.bytes
    }
}

// ---------------------------------------------------------------------------
// Names and unique IDs
// ---------------------------------------------------------------------------

pub const FNV_OFFSET: u64 = 0xcbf29ce484222325;

pub const FNV_PRIME: u64 = 0x100000001b3;

/// One step of the 64-bit FNV-1a hash, over a character's code point.
pub open spec fn fnv_step(h: u64, c: char) -> u64 {
    vstd::wrapping::u64_specs::wrapping_mul(h ^ (c as u32 as u64), FNV_PRIME)
}

/// The 64-bit FNV-1a hash of the code points of `s`, starting from `h`.
pub open spec fn fnv(h: u64, s: Seq<char>) -> u64
    decreases s.len(),
{
    if s.len() == 0 {
        h
    } else {
        fnv_step(fnv(h, s.drop_last()), s.last())
    }
}

/// `k` upper-case letters that spell `h` in base 26, lowest digit first.
pub open spec fn base26_letters(h: nat, k: nat) -> Seq<char>
    decreases k,
{
    if k == 0 {
        Seq::empty()
    } else {
        seq![((65 + h % 26) as u32) as char] + base26_letters(h / 26, (k - 1) as nat)
    }
}

/// The unique ID of a record: eight letters from the FNV-1a hash of the
/// component name, a `/`, and the record's salt.
#[verifier::opaque]
pub open spec fn spec_unique_id(name: Seq<char>, salt: Seq<char>) -> Seq<char> {
    base26_letters(fnv(FNV_OFFSET, name + seq!['/'] + salt) as nat, 8)
}

fn hash_chars(h: u64, v: &Vec<char>) -> (r: u64)
    ensures
        r == fnv(h, v@),
{
    let mut acc = h;
    let mut i: usize = 0;
    while i < v.len()
        invariant
            i <= v@.len(),
            acc == fnv(h, v@.take(i as int)),
        decreases v.len() - i,
    {
        assert(v@.take(i + 1).drop_last() =~= v@.take(i as int));
        acc = (acc ^ (v[i] as u32 as u64)).wrapping_mul(FNV_PRIME);
        i += 1;
    }
    assert(v@.take(i as int) =~= v@);
    acc
}

/// A stable unique ID for a record of component `name`: eight upper-case
/// letters that depend only on the name and the salt.
pub fn stable_unique_id(name: &str, salt: &str) -> (r: String)
    ensures
        r@ == spec_unique_id(name@, salt@),
{
    let mut all = chars_of(name);
    all.push('/');
    let salt_chars = chars_of(salt);
    let mut i: usize = 0;
    let ghost base = all@;
    while i < salt_chars.len()
        invariant
            i <= salt_chars@.len(),
            all@ == base + salt_chars@.take(i as int),
        decreases salt_chars.len() - i,
    {
        all.push(salt_chars[i]);
        assert(salt_chars@.take(i + 1) =~= salt_chars@.take(i as int).push(salt_chars@[i as int]));
        i += 1;
    }
    assert(salt_chars@.take(i as int) =~= salt@);
    assert(all@ =~= name@ + seq!['/'] + salt@);
    let h = hash_chars(FNV_OFFSET, &all);
    let mut m = h;
    let mut out: Vec<char> = Vec::new();
    let mut k: usize = 0;
    while k < 8
        invariant
            k <= 8,
            out@ + base26_letters(m as nat, (8 - k) as nat) == base26_letters(h as nat, 8),
        decreases 8 - k,
    {
        let d = (m % 26) as u8;
        let c = (65u8 + d) as char;
        let ghost rest = base26_letters((m / 26) as nat, (8 - k - 1) as nat);
        assert(base26_letters(m as nat, (8 - k) as nat) == seq![c] + rest);
        out.push(c);
        assert(out@ + rest =~= out@.drop_last() + (seq![c] + rest));
        m = m / 26;
        k += 1;
    }
    assert(base26_letters(m as nat, 0) =~= Seq::<char>::empty());
    assert(out@ + Seq::<char>::empty() =~= out@);
    reveal(spec_unique_id);
    string_from_chars(out.as_slice())
}

/// A unique ID is eight upper-case ASCII letters.
pub proof fn lemma_unique_id_shape(name: Seq<char>, salt: Seq<char>)
    ensures
        spec_unique_id(name, salt).len() == 8,
        forall|i: int|
            0 <= i < 8 ==> 'A' <= #[trigger] spec_unique_id(name, salt)[i] <= 'Z',
{
    reveal(spec_unique_id);
    lemma_base26_shape(fnv(FNV_OFFSET, name + seq!['/'] + salt) as nat, 8);
}

proof fn lemma_base26_shape(h: nat, k: nat)
    ensures
        base26_letters(h, k).len() == k,
        forall|i: int| 0 <= i < k ==> 'A' <= #[trigger] base26_letters(h, k)[i] <= 'Z',
    decreases k,
{
    if k > 0 {
        lemma_base26_shape(h / 26, (k - 1) as nat);
        let s = base26_letters(h, k);
        assert forall|i: int| 0 <= i < k implies 'A' <= #[trigger] s[i] <= 'Z' by {
            if i > 0 {
                assert(s[i] == base26_letters(h / 26, (k - 1) as nat)[i - 1]);
            }
        }
    }
}

/// The storage name of a component: its name with `/` made `_`, cut to 31
/// characters (a compound-file entry name holds at most 31).
pub open spec fn spec_section_key(name: Seq<char>) -> Seq<char> {
    let n = if name.len() < 31 {
        name.len()
    } else {
        31
    };
    name.take(n as int).map_values(|c: char| if c == '/' { '_' } else { c })
}

/// The storage name for a component name.
pub fn section_key_from_name(name: &str) -> (r: String)
    ensures
        r@ == spec_section_key(name@),
{
    let chars = chars_of(name);
    let n: usize = if chars.len() < 31 {
        chars.len()
    } else {
        31
    };
    let mut out: Vec<char> = Vec::new();
    let mut i: usize = 0;
    while i < n
        invariant
            i <= n <= chars@.len(),
            out@ == chars@.take(i as int).map_values(|c: char| if c == '/' { '_' } else { c }),
        decreases n - i,
    {
        let c = chars[i];
        out.push(if c == '/' { '_' } else { c });
        assert(chars@.take(i + 1).map_values(|c: char| if c == '/' { '_' } else { c }) =~= chars@.take(
            i as int,
        ).map_values(|c: char| if c == '/' { '_' } else { c }).push(if c == '/' { '_' } else { c }));
        i += 1;
    }
    string_from_chars(out.as_slice())
}

/// The fallback component name.
pub open spec fn default_component_name() -> Seq<char> {
    seq!['C', 'o', 'm', 'p', 'o', 'n', 'e', 'n', 't']
}

/// A component name as the library writes it: trimmed, and `Component`
/// when nothing is left.
pub open spec fn spec_normalize_component_name(name: Seq<char>) -> Seq<char> {
    if trim(name).len() == 0 {
        default_component_name()
    } else {
        trim(name)
    }
}

/// A component name as the library writes it.
pub fn normalize_component_name(name: &str) -> (r: String)
    ensures
        r@ == spec_normalize_component_name(name@),
{
    let chars = chars_of(name);
    let t = trim_chars(chars.as_slice());
    if t.len() == 0 {
        let r = string_from_chars(&['C', 'o', 'm', 'p', 'o', 'n', 'e', 'n', 't']);
        assert(r@ =~= default_component_name());
        r
    } else {
        string_from_chars(t.as_slice())
    }
}

/// A coordinate as whole grid units for a 16-bit field: the whole part of
/// `raw`, held to the `i16` range.
pub open spec fn spec_dxp_i16(raw: int) -> int {
    let w = trunc_div(raw, COORD_UNIT as int);
    if w < -32768 {
        -32768
    } else if w > 32767 {
        32767
    } else {
        w
    }
}

/// The whole grid units of a coordinate, held to the `i16` range.
pub fn dxp_i16(raw: i64) -> (r: i16)
    ensures
        r as int == spec_dxp_i16(raw as int),
{
    let wide = raw as i128;
    let whole: i128 = if wide >= 0 {
        wide / 100000
    } else {
        -((-wide) / 100000)
    };
    if whole < -32768 {
        -32768
    } else if whole > 32767 {
        32767
    } else {
        whole as i16
    }
}

} // verus!
