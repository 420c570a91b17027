//! Building blocks of the binary record format: fixed-width integers,
//! length-prefixed UTF-8 text, presence flags and counted sequences, each
//! with its parser and the proof that parsing undoes writing.

use vstd::prelude::*;
use vstd::utf8::*;
use vstd::slice::slice_subrange;

verus! {

/// The four little-endian bytes of a 32-bit word.
pub open spec fn le32(x: u32) -> Seq<u8> {
    seq![
        (x % 256) as u8,
        ((x / 256) % 256) as u8,
        ((x / 65536) % 256) as u8,
        (x / 16777216) as u8,
    ]
}

/// The 32-bit word whose little-endian bytes open `b`.
pub open spec fn word_of(b: Seq<u8>) -> u32 {
    (b[0] as int + b[1] as int * 256 + b[2] as int * 65536 + b[3] as int * 16777216) as u32
}

pub proof fn lemma_le32(x: u32, rest: Seq<u8>)
    ensures
        word_of(le32(x) + rest) == x,
        (le32(x) + rest).subrange(4, (le32(x) + rest).len() as int) == rest,
        le32(x).len() == 4,
{
    let b = le32(x) + rest;
    assert(b[0] == (x % 256) as u8);
    assert(b[1] == ((x / 256) % 256) as u8);
    assert(b[2] == ((x / 65536) % 256) as u8);
    assert(b[3] == (x / 16777216) as u8);
    assert(x as int == (x % 256) + ((x / 256) % 256) * 256 + ((x / 65536) % 256) * 65536 + (x / 16777216) * 16777216) by (nonlinear_arith);
    assert(b.subrange(4, b.len() as int) =~= rest);
}


/// A signed word survives the round trip through its unsigned bits.
pub proof fn lemma_i32_word(x: i32)
    ensures
        (x as u32) as i32 == x,
{
    assert((x as u32) as i32 == x) by (bit_vector);
}

/// The bytes of `b` from position `pos` on.
pub open spec fn suffix(b: Seq<u8>, pos: int) -> Seq<u8> {
    b.subrange(pos, b.len() as int)
}

/// A value with a byte form in the record format, and its parser.
pub trait Wire: View + Sized {
    /// The value can be written: every length it holds fits in 32 bits.
    spec fn fits(v: Self::V) -> bool;

    /// The bytes written for the value.
    spec fn wire(v: Self::V) -> Seq<u8>;

    /// Reads one value from the front of `b`, with what follows it.
    spec fn parse(b: Seq<u8>) -> Option<(Self::V, Seq<u8>)>;

    proof fn lemma_parse_wire(v: Self::V, rest: Seq<u8>)
        requires
            Self::fits(v),
        ensures
            Self::parse(Self::wire(v) + rest) == Some((v, rest)),
    ;

    fn fits_exec(&self) -> (r: bool)
        ensures
            r == Self::fits(self@),
    ;

    fn write(&self, out: &mut Vec<u8>)
        requires
            Self::fits(self@),
        ensures
            final(out)@ == old(out)@ + Self::wire(self@),
    ;

    fn read(b: &[u8], pos: usize) -> (r: Option<(Self, usize)>)
        requires
            pos <= b@.len(),
        ensures
            match r {
                Some((v, p)) => pos <= p <= b@.len() && Self::parse(suffix(b@, pos as int))
                    == Some((v@, suffix(b@, p as int))),
                None => Self::parse(suffix(b@, pos as int)) is None,
            },
    ;
}

/// Appends the little-endian bytes of `x`.
pub fn write_u32(out: &mut Vec<u8>, x: u32)
    ensures
        final(out)@ == old(out)@ + le32(x),
{
    out.push((x % 256) as u8);
    out.push(((x / 256) % 256) as u8);
    out.push(((x / 65536) % 256) as u8);
    out.push((x / 16777216) as u8);
    assert(out@ =~= old(out)@ + le32(x));
}

/// The 32-bit word stored little-endian at `pos`.
pub fn read_u32(b: &[u8], pos: usize) -> (r: u32)
    requires
        pos + 4 <= b@.len(),
    ensures
        r == word_of(suffix(b@, pos as int)),
{
    let w: u64 = b[pos] as u64 + b[pos + 1] as u64 * 256 + b[pos + 2] as u64 * 65536 + b[pos + 3] as u64 * 16777216;
    w as u32
}

/// Appends `bytes` to `out`.
pub fn append_bytes(out: &mut Vec<u8>, bytes: &[u8])
    ensures
        final(out)@ == old(out)@ + bytes@,
{
    let ghost start = out@;
    let mut i: usize = 0;
    while i < bytes.len()
        invariant
            i <= bytes@.len(),
            out@ == start + bytes@.take(i as int),
        decreases bytes@.len() - i,
    {
        out.push(bytes[i]);
        i = i + 1;
        assert(out@ =~= start + bytes@.take(i as int));
    }
    assert(bytes@.take(i as int) =~= bytes@);
}

/// Relies on `std::str::from_utf8`: it accepts exactly the well-formed UTF-8
/// byte sequences, and then the text is the one those bytes encode.
#[verifier::external_body]
fn utf8_text(b: &[u8]) -> (r: Option<String>)
    ensures
        r is Some <==> valid_utf8(b@),
        r matches Some(s) ==> s@ == decode_utf8(b@),
{
    std::str::from_utf8(b).ok().map(|s| s.to_string())
}

impl Wire for i32 {
    open spec fn fits(v: i32) -> bool {
        true
    }

    open spec fn wire(v: i32) -> Seq<u8> {
        le32(v as u32)
    }

    open spec fn parse(b: Seq<u8>) -> Option<(i32, Seq<u8>)> {
        if b.len() >= 4 {
            Some((word_of(b) as i32, suffix(b, 4)))
        } else {
            None
        }
    }

    proof fn lemma_parse_wire(v: i32, rest: Seq<u8>) {
        lemma_le32(v as u32, rest);
        lemma_i32_word(v);
    }

    fn fits_exec(&self) -> (r: bool) {
        true
    }

    fn write(&self, out: &mut Vec<u8>) {
        write_u32(out, *self as u32);
    }

    fn read(b: &[u8], pos: usize) -> (r: Option<(i32, usize)>) {
        if b.len() - pos >= 4 {
            let w = read_u32(b, pos);
            assert(suffix(suffix(b@, pos as int), 4) =~= suffix(b@, pos + 4));
            Some((w as i32, pos + 4))
        } else {
            None
        }
    }
}

/// The byte of a flag.
pub open spec fn flag_byte(f: bool) -> u8 {
    if f {
        1
    } else {
        0
    }
}

impl Wire for bool {
    open spec fn fits(v: bool) -> bool {
        true
    }

    open spec fn wire(v: bool) -> Seq<u8> {
        seq![flag_byte(v)]
    }

    open spec fn parse(b: Seq<u8>) -> Option<(bool, Seq<u8>)> {
        if b.len() >= 1 && b[0] == 0 {
            Some((false, suffix(b, 1)))
        } else if b.len() >= 1 && b[0] == 1 {
            Some((true, suffix(b, 1)))
        } else {
            None
        }
    }

    proof fn lemma_parse_wire(v: bool, rest: Seq<u8>) {
        assert(suffix(Self::wire(v) + rest, 1) =~= rest);
    }

    fn fits_exec(&self) -> (r: bool) {
        true
    }

    fn write(&self, out: &mut Vec<u8>) {
        if *self {
            out.push(1);
        } else {
            out.push(0);
        }
        assert(out@ =~= old(out)@ + Self::wire(self@));
    }

    fn read(b: &[u8], pos: usize) -> (r: Option<(bool, usize)>) {
        if pos < b.len() && (b[pos] == 0 || b[pos] == 1) {
            assert(suffix(suffix(b@, pos as int), 1) =~= suffix(b@, pos + 1));
            Some((b[pos] == 1, pos + 1))
        } else {
            None
        }
    }
}


impl Wire for String {
    open spec fn fits(v: Seq<char>) -> bool {
        encode_utf8(v).len() <= u32::MAX
    }

    open spec fn wire(v: Seq<char>) -> Seq<u8> {
        le32(encode_utf8(v).len() as u32) + encode_utf8(v)
    }

    open spec fn parse(b: Seq<u8>) -> Option<(Seq<char>, Seq<u8>)> {
        if b.len() >= 4 && 4 + word_of(b) <= b.len() && valid_utf8(b.subrange(4, 4 + word_of(b))) {
            Some((decode_utf8(b.subrange(4, 4 + word_of(b))), suffix(b, 4 + word_of(b))))
        } else {
            None
        }
    }

    proof fn lemma_parse_wire(v: Seq<char>, rest: Seq<u8>) {
        let e = encode_utf8(v);
        let n = e.len() as u32;
        let b = Self::wire(v) + rest;
        assert(b =~= le32(n) + (e + rest));
        lemma_le32(n, e + rest);
        assert(b.subrange(4, 4 + n) =~= e);
        assert(suffix(b, 4 + n) =~= rest);
        encode_utf8_valid_utf8(v);
        encode_utf8_decode_utf8(v);
    }

    fn fits_exec(&self) -> (r: bool) {
        self.as_str().as_bytes().len() <= 4294967295usize
    }

    fn write(&self, out: &mut Vec<u8>) {
        let bytes = self.as_str().as_bytes();
        write_u32(out, bytes.len() as u32);
        append_bytes(out, bytes);
        assert(out@ =~= old(out)@ + Self::wire(self@));
    }

    fn read(b: &[u8], pos: usize) -> (r: Option<(String, usize)>) {
        if b.len() - pos < 4 {
            return None;
        }
        let n = read_u32(b, pos) as usize;
        if b.len() - pos - 4 < n {
            return None;
        }
        let start = pos + 4;
        let end = start + n;
        let sub = slice_subrange(b, start, end);
        assert(sub@ =~= suffix(b@, pos as int).subrange(4, 4 + n));
        assert(suffix(suffix(b@, pos as int), 4 + n) =~= suffix(b@, end as int));
        match utf8_text(sub) {
            Some(t) => Some((t, end)),
            None => None,
        }
    }
}

/// The model of an optional text.
pub open spec fn opt_view(o: Option<String>) -> Option<Seq<char>> {
    match o {
        Some(s) => Some(s@),
        None => None,
    }
}

pub open spec fn opt_text_fits(o: Option<Seq<char>>) -> bool {
    match o {
        Some(s) => String::fits(s),
        None => true,
    }
}

/// An absent text is one zero byte; a present one is a one byte and the text.
pub open spec fn opt_text_wire(o: Option<Seq<char>>) -> Seq<u8> {
    match o {
        Some(s) => seq![1u8] + String::wire(s),
        None => seq![0u8],
    }
}

pub open spec fn opt_text_parse(b: Seq<u8>) -> Option<(Option<Seq<char>>, Seq<u8>)> {
    if b.len() >= 1 && b[0] == 0 {
        Some((None, suffix(b, 1)))
    } else if b.len() >= 1 && b[0] == 1 {
        match String::parse(suffix(b, 1)) {
            Some((s, r)) => Some((Some(s), r)),
            None => None,
        }
    } else {
        None
    }
}

pub proof fn lemma_opt_text(o: Option<Seq<char>>, rest: Seq<u8>)
    requires
        opt_text_fits(o),
    ensures
        opt_text_parse(opt_text_wire(o) + rest) == Some((o, rest)),
{
    let b = opt_text_wire(o) + rest;
    match o {
        Some(s) => {
            assert(suffix(b, 1) =~= String::wire(s) + rest);
            String::lemma_parse_wire(s, rest);
        },
        None => {
            assert(suffix(b, 1) =~= rest);
        },
    }
}

pub fn opt_text_fits_exec(o: &Option<String>) -> (r: bool)
    ensures
        r == opt_text_fits(opt_view(*o)),
{
    match o {
        Some(s) => s.fits_exec(),
        None => true,
    }
}

pub fn write_opt_text(o: &Option<String>, out: &mut Vec<u8>)
    requires
        opt_text_fits(opt_view(*o)),
    ensures
        final(out)@ == old(out)@ + opt_text_wire(opt_view(*o)),
{
    match o {
        Some(s) => {
            out.push(1);
            s.write(out);
        },
        None => {
            out.push(0);
        },
    }
    assert(out@ =~= old(out)@ + opt_text_wire(opt_view(*o)));
}

pub fn read_opt_text(b: &[u8], pos: usize) -> (r: Option<(Option<String>, usize)>)
    requires
        pos <= b@.len(),
    ensures
        match r {
            Some((v, p)) => pos <= p <= b@.len() && opt_text_parse(suffix(b@, pos as int))
                == Some((opt_view(v), suffix(b@, p as int))),
            None => opt_text_parse(suffix(b@, pos as int)) is None,
        },
{
    if pos >= b.len() {
        return None;
    }
    assert(suffix(suffix(b@, pos as int), 1) =~= suffix(b@, pos + 1));
    if b[pos] == 0 {
        Some((None, pos + 1))
    } else if b[pos] == 1 {
        match String::read(b, pos + 1) {
            Some((s, p)) => Some((Some(s), p)),
            None => None,
        }
    } else {
        None
    }
}


/// The models of a sequence of values.
pub open spec fn views<T: View>(s: Seq<T>) -> Seq<T::V> {
    s.map_values(|x: T| x@)
}

/// The items of a sequence, written one after the other.
pub open spec fn items_wire<T: Wire>(s: Seq<T::V>) -> Seq<u8>
    decreases s.len(),
{
    if s.len() == 0 {
        seq![]
    } else {
        T::wire(s[0]) + items_wire::<T>(s.drop_first())
    }
}

/// Reads `n` items one after the other.
pub open spec fn items_parse<T: Wire>(b: Seq<u8>, n: nat) -> Option<(Seq<T::V>, Seq<u8>)>
    decreases n,
{
    if n == 0 {
        Some((seq![], b))
    } else {
        match T::parse(b) {
            Some((v, r)) => match items_parse::<T>(r, (n - 1) as nat) {
                Some((vs, r2)) => Some((seq![v] + vs, r2)),
                None => None,
            },
            None => None,
        }
    }
}

/// A sequence can be written: its length and each of its items fit.
pub open spec fn list_fits<T: Wire>(s: Seq<T::V>) -> bool {
    &&& s.len() <= u32::MAX
    &&& forall|i: int| 0 <= i < s.len() ==> #[trigger] T::fits(s[i])
}

/// A sequence field: a zero byte where the sequence is left out (allowed only
/// when `sparse` and the sequence is empty), else a one byte, the count and
/// the items.
pub open spec fn list_wire<T: Wire>(s: Seq<T::V>, sparse: bool) -> Seq<u8> {
    if sparse && s.len() == 0 {
        seq![0u8]
    } else {
        seq![1u8] + le32(s.len() as u32) + items_wire::<T>(s)
    }
}

/// Reads a sequence field; one that is left out reads as empty.
pub open spec fn list_parse<T: Wire>(b: Seq<u8>) -> Option<(Seq<T::V>, Seq<u8>)> {
    if b.len() >= 1 && b[0] == 0 {
        Some((seq![], suffix(b, 1)))
    } else if b.len() >= 5 && b[0] == 1 {
        items_parse::<T>(suffix(b, 5), word_of(suffix(b, 1)) as nat)
    } else {
        None
    }
}

pub proof fn lemma_items<T: Wire>(s: Seq<T::V>, rest: Seq<u8>)
    requires
        forall|i: int| 0 <= i < s.len() ==> #[trigger] T::fits(s[i]),
    ensures
        items_parse::<T>(items_wire::<T>(s) + rest, s.len()) == Some((s, rest)),
    decreases s.len(),
{
    if s.len() == 0 {
        assert(items_wire::<T>(s) + rest =~= rest);
        assert(s =~= seq![]);
    } else {
        let t = s.drop_first();
        assert forall|i: int| 0 <= i < t.len() implies #[trigger] T::fits(t[i]) by {
            assert(t[i] == s[i + 1]);
        }
        lemma_items::<T>(t, rest);
        assert(T::fits(s[0]));
        T::lemma_parse_wire(s[0], items_wire::<T>(t) + rest);
        assert(items_wire::<T>(s) + rest =~= T::wire(s[0]) + (items_wire::<T>(t) + rest));
        assert(seq![s[0]] + t =~= s);
    }
}

pub proof fn lemma_list<T: Wire>(s: Seq<T::V>, sparse: bool, rest: Seq<u8>)
    requires
        list_fits::<T>(s),
    ensures
        list_parse::<T>(list_wire::<T>(s, sparse) + rest) == Some((s, rest)),
{
    let b = list_wire::<T>(s, sparse) + rest;
    if sparse && s.len() == 0 {
        assert(suffix(b, 1) =~= rest);
        assert(s =~= seq![]);
    } else {
        let n = s.len() as u32;
        lemma_le32(n, items_wire::<T>(s) + rest);
        assert(suffix(b, 1) =~= le32(n) + (items_wire::<T>(s) + rest));
        assert(suffix(b, 5) =~= items_wire::<T>(s) + rest);
        lemma_items::<T>(s, rest);
    }
}

pub proof fn lemma_items_push<T: Wire>(s: Seq<T::V>, x: T::V)
    ensures
        items_wire::<T>(s.push(x)) == items_wire::<T>(s) + T::wire(x),
    decreases s.len(),
{
    if s.len() == 0 {
        assert(s.push(x).drop_first() =~= seq![]);
        assert(items_wire::<T>(seq![]) == Seq::<u8>::empty());
        assert(items_wire::<T>(s.push(x)) =~= items_wire::<T>(s) + T::wire(x));
    } else {
        lemma_items_push::<T>(s.drop_first(), x);
        assert(s.push(x).drop_first() =~= s.drop_first().push(x));
        assert(s.push(x)[0] == s[0]);
        assert(items_wire::<T>(s.push(x)) == T::wire(s[0]) + items_wire::<T>(s.drop_first().push(x)));
        assert(items_wire::<T>(s.push(x)) =~= items_wire::<T>(s) + T::wire(x));
    }
}

pub fn list_fits_exec<T: Wire>(items: &Vec<T>) -> (r: bool)
    ensures
        r == list_fits::<T>(views(items@)),
{
    if items.len() > 4294967295usize {
        return false;
    }
    let mut i: usize = 0;
    while i < items.len()
        invariant
            i <= items@.len(),
            forall|k: int| 0 <= k < i ==> #[trigger] T::fits(views(items@)[k]),
        decreases items@.len() - i,
    {
        if !items[i].fits_exec() {
            assert(views(items@)[i as int] == items@[i as int]@);
            return false;
        }
        i = i + 1;
    }
    true
}

pub fn write_list<T: Wire>(items: &Vec<T>, omit_empty: bool, out: &mut Vec<u8>)
    requires
        list_fits::<T>(views(items@)),
    ensures
        final(out)@ == old(out)@ + list_wire::<T>(views(items@), omit_empty),
{
    let ghost start = out@;
    if omit_empty && items.len() == 0 {
        out.push(0);
        assert(out@ =~= old(out)@ + list_wire::<T>(views(items@), omit_empty));
        return;
    }
    out.push(1);
    write_u32(out, items.len() as u32);
    let ghost head = out@;
    let mut i: usize = 0;
    while i < items.len()
        invariant
            i <= items@.len(),
            list_fits::<T>(views(items@)),
            head == start + seq![1u8] + le32(items@.len() as u32),
            out@ == head + items_wire::<T>(views(items@.take(i as int))),
        decreases items@.len() - i,
    {
        assert(T::fits(views(items@)[i as int]));
        items[i].write(out);
        proof {
            lemma_items_push::<T>(views(items@.take(i as int)), items@[i as int]@);
            assert(views(items@.take(i + 1)) =~= views(items@.take(i as int)).push(items@[i as int]@));
        }
        i = i + 1;
    }
    assert(items@.take(i as int) =~= items@);
    assert(out@ =~= old(out)@ + list_wire::<T>(views(items@), omit_empty));
}

/// Prepends `pre` to the items of a parse result.
pub open spec fn prepend<V>(pre: Seq<V>, r: Option<(Seq<V>, Seq<u8>)>) -> Option<(Seq<V>, Seq<u8>)> {
    match r {
        Some((vs, rest)) => Some((pre + vs, rest)),
        None => None,
    }
}

pub fn read_list<T: Wire>(b: &[u8], pos: usize) -> (r: Option<(Vec<T>, usize)>)
    requires
        pos <= b@.len(),
    ensures
        match r {
            Some((v, p)) => pos <= p <= b@.len() && list_parse::<T>(suffix(b@, pos as int))
                == Some((views(v@), suffix(b@, p as int))),
            None => list_parse::<T>(suffix(b@, pos as int)) is None,
        },
{
    let ghost s = suffix(b@, pos as int);
    if pos >= b.len() {
        return None;
    }
    if b[pos] == 0 {
        assert(suffix(s, 1) =~= suffix(b@, pos + 1));
        let empty: Vec<T> = Vec::new();
        assert(views(empty@) =~= seq![]);
        return Some((empty, pos + 1));
    }
    if b[pos] != 1 || b.len() - pos < 5 {
        return None;
    }
    let n = read_u32(b, pos + 1);
    assert(suffix(s, 1) =~= suffix(b@, pos + 1));
    assert(suffix(s, 5) =~= suffix(b@, pos + 5));
    assert(list_parse::<T>(s) == items_parse::<T>(suffix(b@, pos + 5), n as nat));
    let mut got: Vec<T> = Vec::new();
    let mut p: usize = pos + 5;
    let mut i: u32 = 0;
    assert(views(got@) =~= seq![]);
    assert(prepend(views(got@), items_parse::<T>(suffix(b@, p as int), n as nat)) =~= items_parse::<T>(suffix(b@, p as int), n as nat));
    while i < n
        invariant
            pos + 5 <= p <= b@.len(),
            i <= n,
            list_parse::<T>(suffix(b@, pos as int)) == items_parse::<T>(suffix(b@, pos + 5), n as nat),
            items_parse::<T>(suffix(b@, pos + 5), n as nat)
                == prepend(views(got@), items_parse::<T>(suffix(b@, p as int), (n - i) as nat)),
        decreases n - i,
    {
        match T::read(b, p) {
            Some((v, q)) => {
                proof {
                    let k = (n - i) as nat;
                    let tail = items_parse::<T>(suffix(b@, q as int), (k - 1) as nat);
                    assert(views(got@.push(v)) =~= views(got@).push(v@));
                    match tail {
                        Some((vs, r2)) => {
                            assert(views(got@) + (seq![v@] + vs) =~= views(got@).push(v@) + vs);
                        },
                        None => {},
                    }
                }
                got.push(v);
                p = q;
                i = i + 1;
            },
            None => {
                assert(items_parse::<T>(suffix(b@, p as int), (n - i) as nat) is None);
                return None;
            },
        }
    }
    assert(items_parse::<T>(suffix(b@, p as int), 0) == Some((Seq::<T::V>::empty(), suffix(b@, p as int))));
    assert(views(got@) + Seq::<T::V>::empty() =~= views(got@));
    Some((got, p))
}

} // verus!
