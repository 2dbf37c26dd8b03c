use sha1::{Digest, Sha1};
use vstd::prelude::*;

verus! {

/// The digest that the SHA-1 function assigns to a byte string. The
/// function is deterministic and depends on the bytes alone; its value is
/// not stated here, only named.
pub uninterp spec fn sha1_of(bytes: Seq<u8>) -> Seq<u8>;

/// The all-zero digest, used as the parent of the root commit and as a
/// deletion marker when merge compares changed paths.
pub open spec fn zero_digest() -> Seq<u8> {
    Seq::new(20, |i: int| 0u8)
}

/// The sixteen lowercase hexadecimal digits, by value.
pub open spec fn spec_hex_digit(n: int) -> char {
    if n == 0 { '0' } else if n == 1 { '1' } else if n == 2 { '2' }
    else if n == 3 { '3' } else if n == 4 { '4' } else if n == 5 { '5' }
    else if n == 6 { '6' } else if n == 7 { '7' } else if n == 8 { '8' }
    else if n == 9 { '9' } else if n == 10 { 'a' } else if n == 11 { 'b' }
    else if n == 12 { 'c' } else if n == 13 { 'd' } else if n == 14 { 'e' }
    else { 'f' }
}

/// The canonical lowercase-hex rendering of a byte string: two digits per
/// byte, high nibble first.
pub open spec fn hex_of(bytes: Seq<u8>) -> Seq<char>
    decreases bytes.len(),
{
    if bytes.len() == 0 {
        Seq::<char>::empty()
    } else {
        seq![
            spec_hex_digit(bytes.first() as int / 16),
            spec_hex_digit(bytes.first() as int % 16),
        ] + hex_of(bytes.drop_first())
    }
}

/// The numeric value of one hexadecimal digit character, or -1 if the
/// character is none; both letter cases are accepted when decoding.
pub open spec fn spec_hex_value(c: char) -> int {
    if c == '0' { 0 } else if c == '1' { 1 } else if c == '2' { 2 }
    else if c == '3' { 3 } else if c == '4' { 4 } else if c == '5' { 5 }
    else if c == '6' { 6 } else if c == '7' { 7 } else if c == '8' { 8 }
    else if c == '9' { 9 }
    else if c == 'a' || c == 'A' { 10 } else if c == 'b' || c == 'B' { 11 }
    else if c == 'c' || c == 'C' { 12 } else if c == 'd' || c == 'D' { 13 }
    else if c == 'e' || c == 'E' { 14 } else if c == 'f' || c == 'F' { 15 }
    else { -1 }
}

/// Whether a character string is a well-formed hash rendering: exactly 40
/// hexadecimal digit characters.
pub open spec fn is_hex_string(s: Seq<char>) -> bool {
    s.len() == 40 && forall|i: int| 0 <= i < s.len() ==> spec_hex_value(s[i]) >= 0
}

/// The byte string a well-formed hash rendering decodes to.
pub open spec fn bytes_of_hex(s: Seq<char>) -> Seq<u8> {
    Seq::new(s.len() / 2, |i: int| (spec_hex_value(s[2 * i]) * 16 + spec_hex_value(s[2 * i + 1])) as u8)
}

/// A 20-byte content digest. It identifies a commit by the bytes of its
/// archived snapshot, and a file by its raw bytes; equality of content is
/// the engine's only identity signal.
#[derive(Clone, Copy, Debug)]
pub struct VcsHash {
    bytes: [u8; 20],
}

impl View for VcsHash {
    type V = Seq<u8>;

    closed spec fn view(&self) -> Seq<u8> {
        self.bytes@
    }
}

impl DeepView for VcsHash {
    type V = Seq<u8>;

    open spec fn deep_view(&self) -> Seq<u8> {
        self.view()
    }
}

/// Every hash is exactly 20 bytes, whatever constructed it.
pub broadcast proof fn lemma_hash_view_len(h: VcsHash)
    ensures
        #[trigger] h@.len() == 20,
{
}

impl PartialEq for VcsHash {
    fn eq(&self, other: &VcsHash) -> (r: bool) {
        let mut i: usize = 0;
        while i < 20
            invariant
                0 <= i <= 20,
                forall|j: int| 0 <= j < i ==> self.bytes@[j] == other.bytes@[j],
            decreases 20 - i,
        {
            if self.bytes[i] != other.bytes[i] {
                return false;
            }
            i += 1;
        }
        proof {
            assert(self.bytes@ =~= other.bytes@);
        }
        true
    }
}

impl vstd::std_specs::cmp::PartialEqSpecImpl for VcsHash {
    open spec fn obeys_eq_spec() -> bool {
        true
    }

    open spec fn eq_spec(&self, other: &VcsHash) -> bool {
        self@ == other@
    }
}

impl VcsHash {
    /// The all-zero hash: "no parent" and "nothing to compare against".
    pub fn zero() -> (h: VcsHash)
        ensures
            h@ == zero_digest(),
    {
        let h = VcsHash { bytes: [0u8; 20] };
        proof {
            assert(h@ =~= zero_digest());
        }
        h
    }

    /// Whether this is the zero sentinel.
    pub fn is_zero(&self) -> (r: bool)
        ensures
            r == (self@ == zero_digest()),
    {
        let z = VcsHash::zero();
        self.eq(&z)
    }

    /// Calculates the SHA-1 digest of a byte string.
    ///
    /// Relies on `sha1::Sha1` (`update` then `finalize`): the 20-byte SHA-1
    /// digest of the input, a function of the input bytes alone.
    #[verifier::external_body]
    pub fn from_bytes(data: &[u8]) -> (h: VcsHash)
        ensures
            h@ == sha1_of(data@),
            h@.len() == 20,
    {
        let mut hasher = Sha1::new();
        hasher.update(data);
        let digest = hasher.finalize();
        VcsHash { bytes: digest.into() }
    }

    /// Rebuilds a hash from its 40-character hex rendering; any other
    /// string is reported as corrupt metadata.
    pub fn from_hex(s: &str) -> (r: Result<VcsHash, crate::util::error::VcsError>)
        ensures
            match r {
                Ok(h) => is_hex_string(s@) && h@ == bytes_of_hex(s@),
                Err(e) => !is_hex_string(s@) && e == crate::util::error::VcsError::Corrupt,
            },
    {
        let n: usize = s.unicode_len();
        if n != 40 {
            return Err(crate::util::error::VcsError::Corrupt);
        }
        let mut bytes: [u8; 20] = [0u8; 20];
        let mut i: usize = 0;
        while i < 20
            invariant
                0 <= i <= 20,
                s@.len() == 40,
                forall|j: int| 0 <= j < i ==> #[trigger] spec_hex_value(s@[2 * j]) >= 0
                    && spec_hex_value(s@[2 * j + 1]) >= 0,
                forall|j: int| 0 <= j < i ==> bytes@[j]
                    == (spec_hex_value(s@[2 * j]) * 16 + spec_hex_value(s@[2 * j + 1])) as u8,
            decreases 20 - i,
        {
            let hi = hex_value(s.get_char(2 * i));
            let lo = hex_value(s.get_char(2 * i + 1));
            match (hi, lo) {
                (Some(h), Some(l)) => {
                    bytes[i] = h * 16 + l;
                }
                _ => {
                    return Err(crate::util::error::VcsError::Corrupt);
                }
            }
            i += 1;
        }
        let h = VcsHash { bytes };
        proof {
            assert forall|i: int| 0 <= i < 40 implies spec_hex_value(s@[i]) >= 0 by {
                let j = i / 2;
                if i % 2 == 0 {
                    assert(spec_hex_value(s@[2 * j]) >= 0);
                } else {
                    assert(spec_hex_value(s@[2 * j + 1]) >= 0);
                }
            }
            assert(h@ =~= bytes_of_hex(s@));
        }
        Ok(h)
    }

    /// The canonical 40-character lowercase-hex rendering.
    pub fn to_hex(&self) -> (s: String)
        ensures
            s@ == hex_of(self@),
    {
        let mut s = String::new();
        let mut i: usize = 0;
        proof {
            assert(self@.skip(0) == self@);
        }
        while i < 20
            invariant
                0 <= i <= 20,
                hex_of(self@) =~= s@ + hex_of(self@.skip(i as int)),
                s@.len() == 2 * i,
            decreases 20 - i,
        {
            let b = self.bytes[i];
            s.append(hex_digit_str(b / 16));
            s.append(hex_digit_str(b % 16));
            proof {
                assert(self@.skip(i as int).drop_first() == self@.skip(i + 1));
            }
            i += 1;
        }
        proof {
            assert(self@.skip(20) =~= Seq::<u8>::empty());
            assert(hex_of(self@) =~= s@);
        }
        s
    }

    /// Whether the hex rendering of this hash starts with the given
    /// case-sensitive prefix.
    #[verifier::loop_isolation(false)]
    pub fn matches_hex_prefix(&self, prefix: &str) -> (r: bool)
        requires
            prefix@.len() <= 40,
        ensures
            r == (hex_of(self@).take(prefix@.len() as int) == prefix@),
    {
        let n: usize = prefix.unicode_len();
        proof {
            lemma_hex_of_len(self@);
        }
        let mut i: usize = 0;
        while i < n
            invariant
                0 <= i <= n,
                forall|m: int| 0 <= m < i ==> hex_of(self@)[m] == prefix@[m],
            decreases n - i,
        {
            let b = self.bytes[i / 2];
            let d = if i % 2 == 0 { b / 16 } else { b % 16 };
            let hc = hex_digit_char(d);
            proof {
                lemma_hex_of_index(self@, (i / 2) as int);
            }
            if prefix.get_char(i) != hc {
                proof {
                    assert(hex_of(self@).take(n as int)[i as int] != prefix@[i as int]);
                }
                return false;
            }
            i += 1;
        }
        proof {
            assert(hex_of(self@).take(n as int) =~= prefix@);
        }
        true
    }

    /// The first six characters of the hex rendering, used in reports.
    pub fn short_str(&self) -> (s: String)
        ensures
            s@ == hex_of(self@).take(6),
    {
        let mut s = String::new();
        s.append(hex_digit_str(self.bytes[0] / 16));
        s.append(hex_digit_str(self.bytes[0] % 16));
        s.append(hex_digit_str(self.bytes[1] / 16));
        s.append(hex_digit_str(self.bytes[1] % 16));
        s.append(hex_digit_str(self.bytes[2] / 16));
        s.append(hex_digit_str(self.bytes[2] % 16));
        proof {
            lemma_hex_of_index(self@, 0);
            lemma_hex_of_index(self@, 1);
            lemma_hex_of_index(self@, 2);
            assert(s@ =~= hex_of(self@).take(6));
        }
        s
    }
}

/// One lowercase hexadecimal digit as a character.
fn hex_digit_char(n: u8) -> (c: char)
    requires
        n < 16,
    ensures
        c == spec_hex_digit(n as int),
{
    if n == 0 { '0' } else if n == 1 { '1' } else if n == 2 { '2' }
    else if n == 3 { '3' } else if n == 4 { '4' } else if n == 5 { '5' }
    else if n == 6 { '6' } else if n == 7 { '7' } else if n == 8 { '8' }
    else if n == 9 { '9' } else if n == 10 { 'a' } else if n == 11 { 'b' }
    else if n == 12 { 'c' } else if n == 13 { 'd' } else if n == 14 { 'e' }
    else { 'f' }
}

/// The characters `2 * i` and `2 * i + 1` of a byte string's hex rendering
/// are the two digits of byte `i`.
pub proof fn lemma_hex_of_index(bytes: Seq<u8>, i: int)
    requires
        0 <= i < bytes.len(),
    ensures
        hex_of(bytes).len() == 2 * bytes.len(),
        hex_of(bytes)[2 * i] == spec_hex_digit(bytes[i] as int / 16),
        hex_of(bytes)[2 * i + 1] == spec_hex_digit(bytes[i] as int % 16),
    decreases bytes.len(),
{
    lemma_hex_of_len(bytes);
    lemma_hex_of_len(bytes.drop_first());
    if i > 0 {
        lemma_hex_of_index(bytes.drop_first(), i - 1);
    }
}

/// The hex rendering has two characters per byte.
pub proof fn lemma_hex_of_len(bytes: Seq<u8>)
    ensures
        hex_of(bytes).len() == 2 * bytes.len(),
    decreases bytes.len(),
{
    if bytes.len() > 0 {
        lemma_hex_of_len(bytes.drop_first());
    }
}

/// One lowercase hexadecimal digit as a borrowed string.
fn hex_digit_str(n: u8) -> (s: &'static str)
    requires
        n < 16,
    ensures
        s@ =~= seq![spec_hex_digit(n as int)],
{
    proof {
        reveal_strlit("0");
        reveal_strlit("1");
        reveal_strlit("2");
        reveal_strlit("3");
        reveal_strlit("4");
        reveal_strlit("5");
        reveal_strlit("6");
        reveal_strlit("7");
        reveal_strlit("8");
        reveal_strlit("9");
        reveal_strlit("a");
        reveal_strlit("b");
        reveal_strlit("c");
        reveal_strlit("d");
        reveal_strlit("e");
        reveal_strlit("f");
    }
    if n == 0 { "0" } else if n == 1 { "1" } else if n == 2 { "2" }
    else if n == 3 { "3" } else if n == 4 { "4" } else if n == 5 { "5" }
    else if n == 6 { "6" } else if n == 7 { "7" } else if n == 8 { "8" }
    else if n == 9 { "9" } else if n == 10 { "a" } else if n == 11 { "b" }
    else if n == 12 { "c" } else if n == 13 { "d" } else if n == 14 { "e" }
    else { "f" }
}

/// The numeric value of one hexadecimal digit character, if it is one.
fn hex_value(c: char) -> (r: Option<u8>)
    ensures
        match r {
            Some(v) => v < 16 && spec_hex_value(c) == v as int,
            None => spec_hex_value(c) == -1,
        },
{
    if c == '0' { Some(0) } else if c == '1' { Some(1) } else if c == '2' { Some(2) }
    else if c == '3' { Some(3) } else if c == '4' { Some(4) } else if c == '5' { Some(5) }
    else if c == '6' { Some(6) } else if c == '7' { Some(7) } else if c == '8' { Some(8) }
    else if c == '9' { Some(9) }
    else if c == 'a' || c == 'A' { Some(10) } else if c == 'b' || c == 'B' { Some(11) }
    else if c == 'c' || c == 'C' { Some(12) } else if c == 'd' || c == 'D' { Some(13) }
    else if c == 'e' || c == 'E' { Some(14) } else if c == 'f' || c == 'F' { Some(15) }
    else { None }
}

} // verus!
