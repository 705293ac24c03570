//! Dynamically-allocated string type, and a string backed by a fixed buffer.
//!
//! Both keep their contents as UTF-8 bytes; the model of each is its byte
//! sequence, which is always a valid UTF-8 encoding.
use vstd::prelude::*;
use vstd::utf8::*;

verus! {

broadcast use group_utf8_lib;

/// Wraps `core::str::from_utf8`: reads `bytes` as a `&str`.
///
/// Claimed of it: valid UTF-8 is always accepted, and whatever is accepted
/// is the string whose UTF-8 encoding is exactly `bytes` (the standard's
/// definition of the conversion).
#[verifier::external_body]
fn str_from_utf8<'a>(bytes: &'a [u8]) -> (r: Option<&'a str>)
    ensures
        valid_utf8(bytes@) ==> r is Some,
        r matches Some(s) ==> encode_utf8(s@) == bytes@,
{
    core::str::from_utf8(bytes).ok()
}

/// The text that a valid UTF-8 byte sequence spells.
pub open spec fn text_of(bytes: Seq<u8>) -> Seq<char> {
    decode_utf8(bytes)
}

/// Reading back the bytes that a `str` has as its encoding gives the `str`.
proof fn lemma_str_of_bytes(s: &str, bytes: Seq<u8>)
    requires
        encode_utf8(s@) == bytes,
    ensures
        s@ == decode_utf8(bytes),
{
    encode_utf8_decode_utf8(s@);
}

/// The UTF-8 encoding of a concatenation is the concatenation of encodings.
pub proof fn lemma_encode_utf8_concat(a: Seq<char>, b: Seq<char>)
    ensures
        encode_utf8(a + b) == encode_utf8(a) + encode_utf8(b),
    decreases a.len(),
{
    if a.len() == 0 {
        assert(a + b =~= b);
    } else {
        lemma_encode_utf8_concat(a.drop_first(), b);
        assert((a + b).drop_first() =~= a.drop_first() + b);
        assert((a + b)[0] == a[0]);
    }
}

/// The error type of `core::fmt` (declared so that `core::fmt::Result`
/// can appear in signatures; nothing is assumed of its values).
#[verifier::external_type_specification]
#[verifier::external_body]
pub struct ExFmtError(core::fmt::Error);

/// Pre-compiled format arguments, as `format_args!` builds them (declared
/// so that they can be handed through; nothing is assumed of their values).
#[verifier::external_type_specification]
#[verifier::external_body]
pub struct ExArguments<'a>(core::fmt::Arguments<'a>);

/// Wraps `core::fmt::Write::write_fmt` on an empty `std::string::String`:
/// renders format arguments as text. An error from a formatting impl is
/// dropped, keeping the text written before it.
///
/// The text depends on the `Display`/`Debug` impls that the arguments carry,
/// so nothing is stated of it.
#[verifier::external_body]
fn render_arguments(args: core::fmt::Arguments) -> std::string::String {
    let mut out = std::string::String::new();
    let _ = core::fmt::Write::write_fmt(&mut out, args);
    out
}

/// String type: an owned, growable UTF-8 byte buffer.
pub struct String(Vec<u8>);

impl View for String {
    type V = Seq<u8>;

    closed spec fn view(&self) -> Seq<u8> {
        self.0@
    }
}

impl String {
    #[verifier::type_invariant]
    spec fn well_formed(&self) -> bool {
        valid_utf8(self.0@)
    }

    /// Create a new empty string (with no allocation)
    pub fn new() -> (r: String)
        ensures
            r@ == Seq::<u8>::empty(),
    {
        String(Vec::new())
    }

    /// Create a pre-allocated string capable of holding `cap` bytes
    pub fn with_capacity(cap: usize) -> (r: String)
        ensures
            r@ == Seq::<u8>::empty(),
    {
        String(Vec::with_capacity(cap))
    }

    /// Create a string from a string slice
    pub fn from_str(string: &str) -> (r: String)
        ensures
            r@ == encode_utf8(string@),
    {
        let mut v: Vec<u8> = Vec::new();
        v.extend_from_slice(string.as_bytes());
        assert(v@ =~= encode_utf8(string@));
        String(v)
    }

    /// Create a string from a `fmt::Arguments` instance (used by `format!`)
    ///
    /// The text is whatever the arguments' formatting impls write (an error
    /// from one of them ends the text there); only its validity as UTF-8 is
    /// stated.
    pub fn from_args(args: core::fmt::Arguments) -> (r: String)
        ensures
            valid_utf8(r@),
    {
        let rendered = render_arguments(args);
        let mut ret = String::new();
        ret.push_str(rendered.as_str());
        ret
    }

    /// Append `s` to the string
    pub fn push_str(&mut self, s: &str)
        ensures
            final(self)@ == old(self)@ + encode_utf8(s@),
    {
        proof {
            use_type_invariant(&*self);
        }
        let ghost before = self.0@;
        let mut v = Vec::new();
        core::mem::swap(&mut v, &mut self.0);
        v.extend_from_slice(s.as_bytes());
        assert(v@ =~= before + encode_utf8(s@));
        proof {
            valid_utf8_concat(before, encode_utf8(s@));
        }
        self.0 = v;
    }

    /// Return the string as a `&str`
    fn as_slice(&self) -> (r: &str)
        ensures
            r@ == text_of(self@),
            encode_utf8(r@) == self@,
    {
        proof {
            use_type_invariant(self);
        }
        match str_from_utf8(self.0.as_slice()) {
            Some(s) => {
                proof {
                    lemma_str_of_bytes(s, self.0@);
                }
                s
            },
            None => {
                proof {
                    assert(false);
                }
                ""
            },
        }
    }
}

impl Clone for String {
    fn clone(&self) -> (r: String)
        ensures
            r@ == self@,
    {
        proof {
            use_type_invariant(self);
        }
        let v = self.0.clone();
        assert(v@ =~= self.0@);
        String(v)
    }
}

impl core::default::Default for String {
    fn default() -> (r: String)
        ensures
            r@ == Seq::<u8>::empty(),
    {
        String::new()
    }
}

impl core::ops::Deref for String {
    type Target = str;

    fn deref(&self) -> (r: &str)
        ensures
            r@ == text_of(self@),
            encode_utf8(r@) == self@,
    {
        self.as_slice()
    }
}

impl<'a> From<&'a str> for String {
    fn from(v: &'a str) -> (r: String)
        ensures
            r@ == encode_utf8(v@),
    {
        String::from_str(v)
    }
}

impl<'a> vstd::std_specs::convert::FromSpecImpl<&'a str> for String {
    /// A `String` cannot be written as a spec value, so the conversion is
    /// described by the `ensures` of `from` over the view instead.
    open spec fn obeys_from_spec() -> bool {
        false
    }

    open spec fn from_spec(v: &'a str) -> String {
        arbitrary()
    }
}

impl core::fmt::Write for String {
    fn write_str(&mut self, s: &str) -> (r: core::fmt::Result)
        ensures
            r is Ok,
            final(self)@ == old(self)@ + encode_utf8(s@),
    {
        self.push_str(s);
        Ok(())
    }
}

/// The UTF-8 encoding of a single `char`.
pub open spec fn char_utf8(c: char) -> Seq<u8> {
    encode_scalar(c as u32)
}

/// A one-character sequence encodes as that character's UTF-8 bytes.
pub proof fn lemma_encode_one(c: char)
    ensures
        encode_utf8(seq![c]) == char_utf8(c),
        valid_utf8(char_utf8(c)),
{
    let s = seq![c];
    assert(s.drop_first() =~= Seq::<char>::empty());
    assert(encode_utf8(s.drop_first()) == Seq::<u8>::empty());
    assert(encode_utf8(s) == encode_scalar(s[0] as u32) + encode_utf8(s.drop_first()));
    assert(char_utf8(c) + Seq::<u8>::empty() =~= char_utf8(c));
    encode_utf8_valid_utf8(s);
}

/// Encodes `c` as UTF-8 into the front of a four-byte buffer, returning the
/// buffer and the number of bytes used.
fn encode_char(c: char) -> (r: ([u8; 4], usize))
    ensures
        1 <= r.1 <= 4,
        r.1 == char_utf8(c).len(),
        r.0@.take(r.1 as int) == char_utf8(c),
{
    let v = c as u32;
    proof {
        char_is_scalar(c);
    }
    if v <= 0x7F {
        let b: [u8; 4] = [(v & 0x7F) as u8, 0, 0, 0];
        assert(b@.take(1) =~= char_utf8(c));
        (b, 1)
    } else if v <= 0x7FF {
        let b: [u8; 4] = [0xC0 | ((v >> 6) & 0x1F) as u8, 0x80 | (v & 0x3F) as u8, 0, 0];
        assert(b@.take(2) =~= char_utf8(c));
        (b, 2)
    } else if v <= 0xFFFF {
        let b: [u8; 4] = [
            0xE0 | ((v >> 12) & 0x0F) as u8,
            0x80 | ((v >> 6) & 0x3F) as u8,
            0x80 | (v & 0x3F) as u8,
            0,
        ];
        assert(b@.take(3) =~= char_utf8(c));
        (b, 3)
    } else {
        let b: [u8; 4] = [
            0xF0 | ((v >> 18) & 0x7) as u8,
            0x80 | ((v >> 12) & 0x3F) as u8,
            0x80 | ((v >> 6) & 0x3F) as u8,
            0x80 | (v & 0x3F) as u8,
        ];
        assert(b@.take(4) =~= char_utf8(c));
        (b, 4)
    }
}

/// String backed by a fixed-size buffer of `N` bytes.
pub struct FixedString<const N: usize> {
    data: [u8; N],
    len: usize,
}

impl<const N: usize> View for FixedString<N> {
    type V = Seq<u8>;

    closed spec fn view(&self) -> Seq<u8> {
        self.data@.take(self.len as int)
    }
}

impl<const N: usize> FixedString<N> {
    #[verifier::type_invariant]
    spec fn well_formed(&self) -> bool {
        &&& self.len <= N
        &&& valid_utf8(self.data@.take(self.len as int))
    }

    /// The number of bytes the backing buffer holds.
    pub open spec fn capacity(&self) -> nat {
        N as nat
    }

    /// Create a new fixed-capacity string using the provided buffer
    pub fn new(backing: [u8; N]) -> (r: FixedString<N>)
        requires
            N > 0,
        ensures
            r@ == Seq::<u8>::empty(),
    {
        let r = FixedString { data: backing, len: 0 };
        assert(r.data@.take(0) =~= Seq::<u8>::empty());
        r
    }

    /// The number of bytes used.
    pub fn len(&self) -> (r: usize)
        ensures
            r == self@.len(),
            r <= N,
    {
        proof {
            use_type_invariant(self);
        }
        self.len
    }

    /// Append one character; it must fit in the space left.
    fn push_char(&mut self, c: char)
        requires
            old(self)@.len() + char_utf8(c).len() <= N,
        ensures
            final(self)@ == old(self)@ + char_utf8(c),
    {
        proof {
            use_type_invariant(&*self);
        }
        let (bytes, n) = encode_char(c);
        let ghost before = self.data@.take(self.len as int);
        let mut data = self.data;
        let start = self.len;
        let mut i: usize = 0;
        while i < n
            invariant
                start == old(self).len,
                n == char_utf8(c).len(),
                1 <= n <= 4,
                start + n <= N,
                i <= n,
                bytes@.take(n as int) == char_utf8(c),
                data@.len() == N,
                data@.take(start as int) == before,
                forall|k: int| 0 <= k < i ==> data@[start + k] == bytes@[k],
            decreases n - i,
        {
            data[start + i] = bytes[i];
            i = i + 1;
        }
        assert(data@.take((start + n) as int) =~= before + char_utf8(c)) by {
            assert forall|k: int| 0 <= k < n implies data@[start + k] == char_utf8(c)[k] by {
                assert(bytes@.take(n as int)[k] == bytes@[k]);
            }
        }
        proof {
            lemma_encode_one(c);
            valid_utf8_concat(before, char_utf8(c));
        }
        self.data = data;
        self.len = start + n;
    }

    /// Append a slice
    pub fn push_str(&mut self, s: &str)
        requires
            old(self)@.len() + encode_utf8(s@).len() <= N,
        ensures
            final(self)@ == old(self)@ + encode_utf8(s@),
    {
        let ghost start = self@;
        for c in it: s.chars()
            invariant
                start.len() + encode_utf8(s@).len() <= N,
                it.seq() == s@,
                self@ == start + encode_utf8(s@.take(it.index() as int)),
        {
            proof {
                let i = it.index() as int;
                lemma_encode_utf8_concat(s@.take(i), seq![c]);
                assert(s@.take(i + 1) =~= s@.take(i) + seq![c]);
                lemma_encode_utf8_concat(s@.take(i + 1), s@.skip(i + 1));
                assert(s@ =~= s@.take(i + 1) + s@.skip(i + 1));
                lemma_encode_one(c);
            }
            self.push_char(c);
        }
        assert(s@.take(s@.len() as int) =~= s@);
    }

    /// Append each character of `chars`, in order.
    pub fn extend(&mut self, chars: &[char])
        requires
            old(self)@.len() + encode_utf8(chars@).len() <= N,
        ensures
            final(self)@ == old(self)@ + encode_utf8(chars@),
    {
        let ghost start = self@;
        let mut i: usize = 0;
        while i < chars.len()
            invariant
                i <= chars@.len(),
                start.len() + encode_utf8(chars@).len() <= N,
                self@ == start + encode_utf8(chars@.take(i as int)),
            decreases chars@.len() - i,
        {
            let c = chars[i];
            proof {
                let k = i as int;
                lemma_encode_utf8_concat(chars@.take(k), seq![c]);
                assert(chars@.take(k + 1) =~= chars@.take(k) + seq![c]);
                lemma_encode_utf8_concat(chars@.take(k + 1), chars@.skip(k + 1));
                assert(chars@ =~= chars@.take(k + 1) + chars@.skip(k + 1));
                lemma_encode_one(c);
            }
            self.push_char(c);
            i = i + 1;
        }
        assert(chars@.take(chars@.len() as int) =~= chars@);
    }

    /// The contents as a `&str`.
    fn as_str(&self) -> (r: &str)
        ensures
            encode_utf8(r@) == self@,
            r@ == text_of(self@),
    {
        proof {
            use_type_invariant(self);
        }
        let bytes = vstd::slice::slice_subrange(self.data.as_slice(), 0, self.len);
        match str_from_utf8(bytes) {
            Some(s) => {
                proof {
                    lemma_str_of_bytes(s, bytes@);
                }
                s
            },
            None => {
                proof {
                    assert(false);
                }
                ""
            },
        }
    }
}

impl<const N: usize> core::ops::Deref for FixedString<N> {
    type Target = str;

    fn deref(&self) -> (r: &str)
        ensures
            encode_utf8(r@) == self@,
            r@ == text_of(self@),
    {
        self.as_str()
    }
}

} // verus!
