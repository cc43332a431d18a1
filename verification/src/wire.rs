use vstd::prelude::*;
use crate::codec::{DecodeError, FromToBytes};
use crate::grid::Vec2D;

verus! {

/// What a grid stands for on the wire: its two dimensions and the plain
/// values of its cells in buffer order.
pub ghost struct GridPlain<P> {
    pub width: usize,
    pub height: usize,
    pub cells: Seq<P>,
}

/// The plain values of a run of cells, in the same order.
pub open spec fn plains<T: FromToBytes>(cells: Seq<T>) -> Seq<T::Plain> {
    Seq::new(cells.len(), |i: int| cells[i].plain())
}

/// The bytes of a run of cells: the bytes of each, one after the other.
pub open spec fn encode_cells<T: FromToBytes>(cells: Seq<T::Plain>) -> Seq<u8>
    decreases cells.len(),
{
    if cells.len() == 0 {
        Seq::empty()
    } else {
        encode_cells::<T>(cells.drop_last()) + T::encode(cells.last())
    }
}

/// The first `count` cells at the front of `bytes` and the number of bytes
/// they take up together, or the failure of the first cell that cannot be read.
pub open spec fn decode_cells<T: FromToBytes>(bytes: Seq<u8>, count: nat) -> Result<
    (Seq<T::Plain>, nat),
    DecodeError,
>
    decreases count,
{
    if count == 0 {
        Ok((Seq::empty(), 0nat))
    } else {
        match decode_cells::<T>(bytes, (count - 1) as nat) {
            Err(e) => Err(e),
            Ok(before) => match T::decode(bytes.skip(before.1 as int)) {
                Err(e) => Err(e),
                Ok(cell) => Ok((before.0.push(cell.0), before.1 + cell.1)),
            },
        }
    }
}

/// Reading cells never takes more bytes than there are, and gives as many
/// cells as were asked for.
pub proof fn lemma_decode_cells_in_range<T: FromToBytes>(bytes: Seq<u8>, count: nat)
    ensures
        decode_cells::<T>(bytes, count) matches Ok(found) ==> found.1 <= bytes.len()
            && found.0.len() == count,
    decreases count,
{
    if count > 0 {
        lemma_decode_cells_in_range::<T>(bytes, (count - 1) as nat);
        if let Ok(before) = decode_cells::<T>(bytes, (count - 1) as nat) {
            T::lemma_decode_in_range(bytes.skip(before.1 as int));
        }
    }
}

/// Once a cell cannot be read, asking for more cells fails in the same way.
pub proof fn lemma_decode_cells_failure_stays<T: FromToBytes>(bytes: Seq<u8>, few: nat, many: nat)
    requires
        few <= many,
        decode_cells::<T>(bytes, few).is_err(),
    ensures
        decode_cells::<T>(bytes, many) == decode_cells::<T>(bytes, few),
    decreases many,
{
    if few < many {
        lemma_decode_cells_failure_stays::<T>(bytes, few, (many - 1) as nat);
    }
}

/// Reading back the bytes of a run of cells gives the cells back and takes
/// exactly those bytes, whatever follows them.
pub proof fn lemma_cells_round_trip<T: FromToBytes>(cells: Seq<T>, rest: Seq<u8>)
    requires
        forall|i: int| 0 <= i < cells.len() ==> (#[trigger] cells[i]).well_formed(),
    ensures
        decode_cells::<T>(encode_cells::<T>(plains(cells)) + rest, cells.len()) == Ok::<
            (Seq<T::Plain>, nat),
            DecodeError,
        >((plains(cells), encode_cells::<T>(plains(cells)).len())),
    decreases cells.len(),
{
    if cells.len() > 0 {
        let init = cells.drop_last();
        let last = cells.last();
        let tail = T::encode(last.plain()) + rest;
        assert(plains(cells).drop_last() =~= plains(init));
        assert(plains(cells).last() == last.plain());
        let head = encode_cells::<T>(plains(init));
        assert(encode_cells::<T>(plains(cells)) + rest =~= head + tail);
        lemma_cells_round_trip::<T>(init, tail);
        assert((head + tail).skip(head.len() as int) =~= tail);
        T::lemma_round_trip(last, rest);
        assert(plains(init).push(last.plain()) =~= plains(cells));
    } else {
        assert(plains(cells) =~= Seq::<T::Plain>::empty());
    }
}

} // verus!

verus! {

/// Skipping twice is skipping once by the sum.
proof fn lemma_skip_skip(bytes: Seq<u8>, a: int, b: int)
    requires
        0 <= a,
        0 <= b,
        a + b <= bytes.len(),
    ensures
        bytes.skip(a).skip(b) == bytes.skip(a + b),
{
    assert(bytes.skip(a).skip(b) =~= bytes.skip(a + b));
}

impl<T: FromToBytes> FromToBytes for Vec2D<T> {
    type Plain = GridPlain<T::Plain>;

    open spec fn plain(&self) -> GridPlain<T::Plain> {
        GridPlain { width: self.spec_width(), height: self.spec_height(), cells: plains(self@) }
    }

    open spec fn well_formed(&self) -> bool {
        self.wf() && forall|i: int| 0 <= i < self@.len() ==> (#[trigger] self@[i]).well_formed()
    }

    /// The width, the height, then the cells in buffer order; the two
    /// dimensions are written as `usize` writes itself.
    open spec fn encode(p: GridPlain<T::Plain>) -> Seq<u8> {
        usize::encode(p.width) + usize::encode(p.height) + encode_cells::<T>(p.cells)
    }

    /// The width, the height, then as many cells as their product. The first
    /// part that cannot be read decides the failure; dimensions whose product
    /// no machine word holds are refused.
    open spec fn decode(bytes: Seq<u8>) -> Result<(GridPlain<T::Plain>, nat), DecodeError> {
        match usize::decode(bytes) {
            Err(e) => Err(e),
            Ok(w) => match usize::decode(bytes.skip(w.1 as int)) {
                Err(e) => Err(e),
                Ok(h) => if w.0 * h.0 > usize::MAX {
                    Err(DecodeError::Malformed)
                } else {
                    match decode_cells::<T>(bytes.skip((w.1 + h.1) as int), (w.0 * h.0) as nat) {
                        Err(e) => Err(e),
                        Ok(cells) => Ok(
                            (
                                GridPlain { width: w.0, height: h.0, cells: cells.0 },
                                w.1 + h.1 + cells.1,
                            ),
                        ),
                    }
                },
            },
        }
    }

    proof fn lemma_decode_in_range(bytes: Seq<u8>) {
        if let Ok(w) = usize::decode(bytes) {
            if let Ok(h) = usize::decode(bytes.skip(w.1 as int)) {
                if w.0 * h.0 <= usize::MAX {
                    lemma_decode_cells_in_range::<T>(bytes.skip((w.1 + h.1) as int), (w.0 * h.0) as nat);
                }
            }
        }
    }

    proof fn lemma_round_trip(v: Vec2D<T>, rest: Seq<u8>) {
        let p = v.plain();
        let cells = encode_cells::<T>(p.cells);
        let bytes = Self::encode(p) + rest;
        vstd::bytes::lemma_auto_spec_u64_to_from_le_bytes();
        assert(bytes =~= usize::encode(p.width) + (usize::encode(p.height) + cells + rest));
        usize::lemma_round_trip(p.width, usize::encode(p.height) + cells + rest);
        assert(usize::decode(bytes) == Ok::<(usize, nat), DecodeError>((p.width, 8nat)));
        assert(bytes.skip(8) =~= usize::encode(p.height) + (cells + rest));
        usize::lemma_round_trip(p.height, cells + rest);
        assert(usize::decode(bytes.skip(8)) == Ok::<(usize, nat), DecodeError>((p.height, 8nat)));
        assert(bytes.skip(16) =~= cells + rest);
        lemma_cells_round_trip::<T>(v@, rest);
        v.lemma_len_fits();
        assert(p.cells.len() == p.width * p.height);
        assert(Self::encode(p).len() == 16 + cells.len());
    }

    fn to_bytes(&self, out: &mut Vec<u8>) {
        self.width().to_bytes(out);
        self.height().to_bytes(out);
        let cells = self.as_slice();
        let mut i: usize = 0;
        while i < cells.len()
            invariant
                i <= cells@.len(),
                cells@ == self@,
                self.well_formed(),
                out@ == old(out)@ + usize::encode(self.spec_width()) + usize::encode(
                    self.spec_height(),
                ) + encode_cells::<T>(plains(self@.take(i as int))),
            decreases cells@.len() - i,
        {
            cells[i].to_bytes(out);
            proof {
                let before = self@.take(i as int);
                let after = self@.take(i + 1);
                assert(plains(after).drop_last() =~= plains(before));
                assert(plains(after).last() == self@[i as int].plain());
            }
            i += 1;
        }
        proof {
            assert(self@.take(i as int) =~= self@);
        }
    }

    fn from_bytes(input: &[u8], pos: usize) -> (r: Result<(Vec2D<T>, usize), DecodeError>) {
        let ghost bytes = input@.skip(pos as int);
        let (w, after_w) = match usize::from_bytes(input, pos) {
            Err(e) => { return Err(e); },
            Ok(found) => found,
        };
        proof {
            lemma_skip_skip(input@, pos as int, 8);
        }
        let (h, start) = match usize::from_bytes(input, after_w) {
            Err(e) => { return Err(e); },
            Ok(found) => found,
        };
        let count = match w.checked_mul(h) {
            None => { return Err(DecodeError::Malformed); },
            Some(count) => count,
        };
        proof {
            lemma_skip_skip(input@, pos as int, 16);
        }
        let ghost body = input@.skip(start as int);
        let mut data: Vec<T> = Vec::new();
        let mut at: usize = start;
        let mut i: usize = 0;
        proof {
            assert(plains(data@) =~= Seq::<T::Plain>::empty());
        }
        while i < count
            invariant
                i <= count,
                start <= at <= input@.len(),
                bytes == input@.skip(pos as int),
                body == input@.skip(start as int),
                body == bytes.skip(16),
                usize::decode(bytes) == Ok::<(usize, nat), DecodeError>((w, 8nat)),
                usize::decode(bytes.skip(8)) == Ok::<(usize, nat), DecodeError>((h, 8nat)),
                count == w * h,
                data@.len() == i,
                forall|j: int| 0 <= j < data@.len() ==> (#[trigger] data@[j]).well_formed(),
                decode_cells::<T>(body, i as nat) == Ok::<(Seq<T::Plain>, nat), DecodeError>(
                    (plains(data@), (at - start) as nat),
                ),
            decreases count - i,
        {
            proof {
                lemma_skip_skip(input@, start as int, at - start);
                T::lemma_decode_in_range(input@.skip(at as int));
            }
            let ghost before = data@;
            match T::from_bytes(input, at) {
                Err(e) => {
                    proof {
                        assert(body.skip(at - start) == input@.skip(at as int));
                        assert(decode_cells::<T>(body, (i + 1) as nat) == Err::<
                            (Seq<T::Plain>, nat),
                            DecodeError,
                        >(e));
                        lemma_decode_cells_failure_stays::<T>(body, (i + 1) as nat, count as nat);
                    }
                    return Err(e);
                },
                Ok(found) => {
                    let (cell, next) = found;
                    proof {
                        assert(plains(before.push(cell)) =~= plains(before).push(cell.plain()));
                    }
                    data.push(cell);
                    at = next;
                },
            }
            i += 1;
        }
        Ok((Vec2D::from_parts(w, h, data), at))
    }
}

} // verus!
