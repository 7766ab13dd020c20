//! Request bodies and shared pieces of the archive-client protocol.

pub mod collection;
pub mod molecule;
pub mod procedure;

use vstd::prelude::*;
use vstd::string::StringSliceAdditionalSpecFns;

verus! {

/// Completion status of an archived calculation record.
#[derive(Clone, Copy, Debug, PartialEq, Eq, Structural)]
pub enum Status {
    Complete,
    Error,
}

impl Status {
    /// Returns `true` if the status is [`Status::Complete`].
    pub fn is_complete(&self) -> (r: bool)
        ensures
            r == (self is Complete),
    {
        matches!(self, Self::Complete)
    }
}

/// Server information: the largest number of ids one query may name.
#[derive(Clone, Copy, Debug)]
pub struct Information {
    pub query_limit: usize,
}

/// A request body built from a list of record ids.
pub trait Body: Sized {
    /// The record ids the body queries.
    spec fn spec_ids(&self) -> Seq<Seq<char>>;

    fn new(ids: Vec<String>) -> (r: Self)
        ensures
            r.spec_ids() == ids@.map_values(|s: String| s@),
    ;
}

/// The views of a list of id strings.
pub open spec fn id_views(ids: Seq<String>) -> Seq<Seq<char>> {
    ids.map_values(|s: String| s@)
}

/// The ids of a chunk list, flattened back in order.
pub open spec fn flat_ids(chunks: Seq<Vec<String>>) -> Seq<Seq<char>>
    decreases chunks.len(),
{
    if chunks.len() == 0 {
        Seq::empty()
    } else {
        flat_ids(chunks.drop_last()) + id_views(chunks.last()@)
    }
}

/// Split a list of record ids into query chunks: every chunk holds at most
/// `chunk_size` ids, every chunk but the last holds exactly `chunk_size`, no
/// chunk is empty, and the chunks concatenate back to the input in order.
pub fn id_chunks(ids: &Vec<String>, chunk_size: usize) -> (r: Vec<Vec<String>>)
    requires
        chunk_size >= 1,
    ensures
        flat_ids(r@) == id_views(ids@),
        forall|c: int| 0 <= c < r@.len() ==> 1 <= (#[trigger] r@[c])@.len() <= chunk_size,
        forall|c: int| 0 <= c < r@.len() - 1 ==> (#[trigger] r@[c])@.len() == chunk_size,
{
    let mut r: Vec<Vec<String>> = Vec::new();
    let mut i: usize = 0;
    proof {
        assert(flat_ids(r@) =~= id_views(ids@).take(0));
    }
    while i < ids.len()
        invariant
            chunk_size >= 1,
            i <= ids@.len(),
            flat_ids(r@) == id_views(ids@).take(i as int),
            forall|c: int| 0 <= c < r@.len() ==> 1 <= (#[trigger] r@[c])@.len() <= chunk_size,
            forall|c: int| 0 <= c < r@.len() ==> (#[trigger] r@[c])@.len() == chunk_size,
        decreases ids@.len() - i,
    {
        let ghost r0 = r@;
        let ghost i0 = i as int;
        let mut chunk: Vec<String> = Vec::new();
        while i < ids.len() && chunk.len() < chunk_size
            invariant
                chunk_size >= 1,
                i0 < ids@.len(),
                i0 <= i as int <= ids@.len(),
                chunk@.len() == i - i0,
                chunk@.len() <= chunk_size,
                forall|l: int| 0 <= l < chunk@.len() ==> (#[trigger] chunk@[l])@ == ids@[i0 + l]@,
            decreases ids@.len() - i,
        {
            chunk.push(ids[i].clone());
            i = i + 1;
        }
        proof {
            assert(chunk@.len() >= 1);
            assert(id_views(chunk@) =~= id_views(ids@).subrange(i0, i as int));
        }
        r.push(chunk);
        proof {
            assert(r@.drop_last() =~= r0);
            assert(flat_ids(r@) == flat_ids(r0) + id_views(r@.last()@));
            assert(flat_ids(r@) =~= id_views(ids@).take(i as int));
            assert forall|c: int| 0 <= c < r@.len() implies 1 <= (#[trigger] r@[c])@.len()
                <= chunk_size by {
                if c < r0.len() {
                    assert(r@[c] == r0[c]);
                }
            }
            if i < ids@.len() {
                assert(r@.last()@.len() == chunk_size);
                assert forall|c: int| 0 <= c < r@.len() implies (#[trigger] r@[c])@.len()
                    == chunk_size by {
                    if c < r0.len() {
                        assert(r@[c] == r0[c]);
                    }
                }
            }
        }
        if i < ids.len() {
        } else {
            proof {
                assert(id_views(ids@).take(ids@.len() as int) =~= id_views(ids@));
                assert forall|c: int| 0 <= c < r@.len() - 1 implies (#[trigger] r@[c])@.len()
                    == chunk_size by {
                    assert(r@[c] == r0[c]);
                }
            }
            return r;
        }
    }
    proof {
        assert(id_views(ids@).take(ids@.len() as int) =~= id_views(ids@));
    }
    r
}

/// The byte is an ascii decimal digit.
pub open spec fn is_digit_byte(b: u8) -> bool {
    48 <= b <= 57
}

/// The byte is an ascii square bracket.
pub open spec fn is_bracket_byte(b: u8) -> bool {
    b == 91 || b == 93
}

/// The number a run of ascii digits denotes.
pub open spec fn digits_val(s: Seq<u8>) -> int
    decreases s.len(),
{
    if s.len() == 0 {
        0
    } else {
        digits_val(s.drop_last()) * 10 + (s.last() - 48)
    }
}

/// Every byte of the run is an ascii digit.
pub open spec fn all_digits(s: Seq<u8>) -> bool {
    forall|i: int| 0 <= i < s.len() ==> is_digit_byte(#[trigger] s[i])
}

/// `s` with every leading square bracket removed.
pub open spec fn trim_start_brackets(s: Seq<u8>) -> Seq<u8>
    decreases s.len(),
{
    if s.len() > 0 && is_bracket_byte(s.first()) {
        trim_start_brackets(s.drop_first())
    } else {
        s
    }
}

/// `s` with every trailing square bracket removed.
pub open spec fn trim_end_brackets(s: Seq<u8>) -> Seq<u8>
    decreases s.len(),
{
    if s.len() > 0 && is_bracket_byte(s.last()) {
        trim_end_brackets(s.drop_last())
    } else {
        s
    }
}

/// The integer a bracketed grid id denotes: the text with surrounding square
/// brackets removed must be an optional minus sign followed by at least one
/// ascii digit; anything else denotes nothing.
pub open spec fn grid_id_value(s: Seq<u8>) -> Option<int> {
    let t = trim_end_brackets(trim_start_brackets(s));
    if t.len() > 0 && t.first() == 45 {
        if t.len() > 1 && all_digits(t.drop_first()) {
            Some(-digits_val(t.drop_first()))
        } else {
            None
        }
    } else if t.len() > 0 && all_digits(t) {
        Some(digits_val(t))
    } else {
        None
    }
}

proof fn lemma_digits_val_bounds(s: Seq<u8>, k: int)
    requires
        all_digits(s),
        0 <= k <= s.len(),
    ensures
        digits_val(s) >= 0,
        digits_val(s.take(k)) <= digits_val(s),
    decreases s.len(),
{
    if s.len() == 0 {
        assert(s.take(k) =~= s);
    } else {
        assert(all_digits(s.drop_last()));
        lemma_digits_val_bounds(s.drop_last(), if k <= s.len() - 1 {
            k
        } else {
            s.len() - 1
        });
        assert(is_digit_byte(s.last()));
        if k <= s.len() - 1 {
            assert(s.take(k) =~= s.drop_last().take(k));
        } else {
            assert(s.take(k) =~= s);
        }
    }
}

/// Parse a torsion-drive grid id such as "[-120]" into the integer it names.
/// The answer is the denoted value exactly; text that denotes nothing, or a
/// value outside the machine range, yields nothing.
pub fn parse_grid_id(s: &str) -> (r: Option<isize>)
    ensures
        match r {
            Some(v) => grid_id_value(s.spec_bytes()) == Some(v as int),
            None => grid_id_value(s.spec_bytes()) is None || grid_id_value(s.spec_bytes())->0
                > isize::MAX || grid_id_value(s.spec_bytes())->0 < isize::MIN,
        },
{
    let bytes = s.as_bytes();
    let ghost full = s.spec_bytes();
    let n = bytes.len();
    let mut lo: usize = 0;
    proof {
        assert(full.subrange(0, n as int) =~= full);
    }
    while lo < n && (bytes[lo] == 91 || bytes[lo] == 93)
        invariant
            bytes@ == full,
            n == full.len(),
            lo <= n,
            trim_start_brackets(full) == trim_start_brackets(full.subrange(lo as int, n as int)),
        decreases n - lo,
    {
        proof {
            assert(full.subrange(lo as int, n as int).drop_first() =~= full.subrange(
                lo + 1,
                n as int,
            ));
        }
        lo = lo + 1;
    }
    proof {
        if lo < n {
            assert(!is_bracket_byte(full.subrange(lo as int, n as int).first()));
        }
        assert(trim_start_brackets(full) =~= full.subrange(lo as int, n as int));
    }
    let mut hi: usize = n;
    while hi > lo && (bytes[hi - 1] == 91 || bytes[hi - 1] == 93)
        invariant
            bytes@ == full,
            n == full.len(),
            lo <= hi <= n,
            trim_start_brackets(full) == full.subrange(lo as int, n as int),
            trim_end_brackets(full.subrange(lo as int, n as int)) == trim_end_brackets(
                full.subrange(lo as int, hi as int),
            ),
        decreases hi,
    {
        proof {
            assert(full.subrange(lo as int, hi as int).drop_last() =~= full.subrange(
                lo as int,
                hi - 1,
            ));
        }
        hi = hi - 1;
    }
    let ghost t = full.subrange(lo as int, hi as int);
    proof {
        if hi > lo {
            assert(!is_bracket_byte(full.subrange(lo as int, hi as int).last()));
        }
        assert(trim_end_brackets(full.subrange(lo as int, hi as int)) =~= t);
        assert(trim_end_brackets(trim_start_brackets(full)) == t);
    }
    if lo == hi {
        return None;
    }
    let neg = bytes[lo] == 45;
    let start = if neg {
        lo + 1
    } else {
        lo
    };
    proof {
        assert(t.first() == full[lo as int]);
        if neg {
            assert(t.drop_first() =~= full.subrange(start as int, hi as int));
        }
    }
    if start == hi {
        return None;
    }
    let ghost digits = full.subrange(start as int, hi as int);
    let limit: i128 = if neg {
        (isize::MAX as i128) + 1
    } else {
        isize::MAX as i128
    };
    let mut acc: i128 = 0;
    let mut k: usize = start;
    proof {
        assert(digits.take(0) =~= Seq::<u8>::empty());
    }
    while k < hi
        invariant
            bytes@ == full,
            full == s.spec_bytes(),
            n == full.len(),
            lo <= start <= k <= hi <= n,
            start < hi,
            neg ==> start == lo + 1,
            !neg ==> start == lo,
            t == full.subrange(lo as int, hi as int),
            trim_end_brackets(trim_start_brackets(full)) == t,
            t.first() == full[lo as int],
            neg == (full[lo as int] == 45),
            digits == full.subrange(start as int, hi as int),
            neg ==> t.drop_first() == digits,
            !neg ==> t == digits,
            limit == if neg {
                isize::MAX + 1
            } else {
                isize::MAX as int
            },
            all_digits(digits.take(k - start)),
            acc == digits_val(digits.take(k - start)),
            0 <= acc <= limit,
        decreases hi - k,
    {
        let b = bytes[k];
        if b < 48 || b > 57 {
            proof {
                assert(digits[k - start] == full[k as int]);
                assert(!is_digit_byte(digits[k - start]));
                assert(!all_digits(digits));
            }
            return None;
        }
        let d = (b - 48) as i128;
        let next = acc * 10 + d;
        proof {
            assert(digits.take(k - start + 1).drop_last() =~= digits.take(k - start));
            assert(digits.take(k - start + 1).last() == digits[k - start]);
            assert(digits[k - start] == full[k as int]);
            assert(next == digits_val(digits.take(k - start + 1)));
            assert(all_digits(digits.take(k - start + 1)));
        }
        if next > limit {
            proof {
                // the digits read so far already exceed the machine range,
                // and reading more digits never shrinks the value
                lemma_digits_val_bounds(digits.take(k - start + 1), k - start + 1);
                if all_digits(digits) {
                    lemma_digits_val_bounds(digits, k - start + 1);
                    assert(digits.take(k - start + 1) =~= digits.take(k - start + 1));
                    assert(digits_val(digits) >= digits_val(digits.take(k - start + 1)));
                }
            }
            return None;
        }
        acc = next;
        k = k + 1;
    }
    proof {
        assert(digits.take(hi - start) =~= digits);
        assert(acc == digits_val(digits));
        assert(all_digits(digits));
    }
    if neg {
        Some((-acc) as isize)
    } else {
        Some(acc as isize)
    }
}

} // verus!
