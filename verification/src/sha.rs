//! Commit identifiers: the twenty bytes of an object id and their
//! hexadecimal spelling.

use vstd::prelude::*;

verus! {

/// The object id of a commit.
#[derive(Clone, Copy, PartialEq, Eq, Debug, Hash)]
pub struct Sha {
    pub bytes: [u8; 20],
}

/// The lowercase hexadecimal digit for a value below sixteen.
pub open spec fn hex_digit(n: int) -> char {
    if n < 10 {
        (('0' as int) + n) as char
    } else {
        (('a' as int) + n - 10) as char
    }
}

/// The forty lowercase hexadecimal digits of an id, high nibble first.
pub open spec fn hex_of(bytes: Seq<u8>) -> Seq<char> {
    Seq::new(
        2 * bytes.len(),
        |i: int|
            if i % 2 == 0 {
                hex_digit(bytes[i / 2] as int / 16)
            } else {
                hex_digit(bytes[i / 2] as int % 16)
            },
    )
}

fn hex_char(n: u8) -> (c: char)
    requires
        n < 16,
    ensures
        c == hex_digit(n as int),
{
    if n < 10 {
        ((48u8 + n) as char)
    } else {
        ((87u8 + n) as char)
    }
}

impl Sha {
    /// The id written as forty lowercase hexadecimal digits.
    pub fn hex(&self) -> (r: Vec<char>)
        ensures
            r@ == hex_of(self.bytes@),
    {
        let mut r: Vec<char> = Vec::new();
        let mut i: usize = 0;
        while i < 20
            invariant
                i <= 20,
                self.bytes@.len() == 20,
                r@.len() == 2 * i,
                forall|k: int| 0 <= k < 2 * i ==> r@[k] == #[trigger] hex_of(self.bytes@)[k],
            decreases 20 - i,
        {
            let b = self.bytes[i];
            r.push(hex_char(b / 16));
            r.push(hex_char(b % 16));
            proof {
                assert((2 * i) % 2 == 0 && (2 * i) / 2 == i as int);
                assert((2 * i + 1) % 2 == 1 && (2 * i + 1) / 2 == i as int);
            }
            i += 1;
        }
        proof {
            assert(r@ =~= hex_of(self.bytes@));
        }
        r
    }

    /// The abbreviated id the commit list shows: its first seven
    /// hexadecimal digits.
    pub fn short_hex(&self) -> (r: Vec<char>)
        ensures
            r@ == hex_of(self.bytes@).take(7),
    {
        let full = self.hex();
        let mut r: Vec<char> = Vec::new();
        let mut i: usize = 0;
        while i < 7
            invariant
                i <= 7,
                full@ == hex_of(self.bytes@),
                full@.len() == 40,
                r@ == full@.take(i as int),
            decreases 7 - i,
        {
            r.push(full[i]);
            proof {
                assert(full@.take(i + 1) == full@.take(i as int).push(full@[i as int]));
            }
            i += 1;
        }
        r
    }

    /// The id that a repository without any commit reports for its head.
    pub fn zero() -> (r: Sha)
        ensures
            r.bytes@ == Seq::new(20, |i: int| 0u8),
    {
        let r = Sha { bytes: [0u8; 20] };
        proof {
            assert(r.bytes@ =~= Seq::new(20, |i: int| 0u8));
        }
        r
    }
}

broadcast use vstd::array::group_array_axioms;

/// Whether two ids are the same.
pub fn same_sha(a: &Sha, b: &Sha) -> (r: bool)
    ensures
        r == (*a == *b),
{
    let mut i: usize = 0;
    while i < 20
        invariant
            i <= 20,
            a.bytes@.len() == 20,
            b.bytes@.len() == 20,
            forall|k: int| 0 <= k < i ==> a.bytes@[k] == b.bytes@[k],
        decreases 20 - i,
    {
        if a.bytes[i] != b.bytes[i] {
            return false;
        }
        i += 1;
    }
    proof {
        assert(a.bytes@ =~= b.bytes@);
        assert(a.bytes =~= b.bytes);
    }
    true
}

/// Whether two optional ids are the same.
pub fn same_option(a: &Option<Sha>, b: &Option<Sha>) -> (r: bool)
    ensures
        r == (*a == *b),
{
    match (a, b) {
        (Some(x), Some(y)) => same_sha(x, y),
        (None, None) => true,
        _ => false,
    }
}

} // verus!
