//! The kernel image: which images are accepted, which headers give a segment, and what the checks on
//! the segments look for.

use vstd::prelude::*;

use crate::bytes::{u16_at, u32_at, u64_at};
use crate::kernel_image::{
    entry_check, entry_verdict, first_entry_verdict, first_fault, first_overlap_fault, has_table,
    image_check, law_span_covers_every_segment, overlap_check, overlap_fault, overlapping,
    segment_fault, segments_check, span_of, table, table_from, ImageError, Segment, SegmentError,
};
use crate::math::law_powers_of_two;

verus! {

/// An image is accepted exactly if it holds a header, starts with `\\x7fELF`, is 64-bit and little
/// endian, and its type and machine are `ET_EXEC` and x86-64. Its entry point is the eight bytes
/// from 24 on.
pub proof fn law_which_images_are_accepted(data: Seq<u8>)
    ensures
        image_check(data) is Ok <==> {
            &&& data.len() >= 64
            &&& data[0] == 0x7F && data[1] == 0x45 && data[2] == 0x4C && data[3] == 0x46
            &&& data[4] == 2
            &&& data[5] == 1
            &&& data[16] == 2 && data[17] == 0
            &&& data[18] == 62 && data[19] == 0
        },
        image_check(data) is Ok ==> image_check(data)->Ok_0 == u64_at(data, 24),
{
}

/// The reasons to refuse an image, looked for in the order of the fields.
pub proof fn law_reasons_to_refuse_an_image(data: Seq<u8>)
    requires
        data.len() <= usize::MAX,
    ensures
        data.len() < 64 ==> image_check(data) == Err::<u64, ImageError>(
            ImageError::TooSmall(data.len() as usize),
        ),
        data.len() >= 64 ==> {
            let magic = data[0] == 0x7F && data[1] == 0x45 && data[2] == 0x4C && data[3] == 0x46;
            let e_type = data[16] + 256 * data[17];
            let machine = data[18] + 256 * data[19];
            &&& !magic ==> image_check(data) == Err::<u64, ImageError>(ImageError::NotElf)
            &&& magic && data[4] != 2 ==> image_check(data) == Err::<u64, ImageError>(
                ImageError::NotElf64,
            )
            &&& magic && data[4] == 2 && data[5] != 1 ==> image_check(data) == Err::<
                u64,
                ImageError,
            >(ImageError::NotLittleEndian)
            &&& magic && data[4] == 2 && data[5] == 1 && e_type != 2 ==> image_check(data) == Err::<
                u64,
                ImageError,
            >(ImageError::NotExecutable(e_type as u16))
            &&& magic && data[4] == 2 && data[5] == 1 && e_type == 2 && machine != 62
                ==> image_check(data) == Err::<u64, ImageError>(
                ImageError::UnsupportedMachine(machine as u16),
            )
        },
{
}

/// A file has a usable table of program headers exactly if it holds a header, and that header names
/// at least one program header of at least 56 bytes.
pub proof fn law_which_files_have_a_table(data: Seq<u8>)
    ensures
        has_table(data) <==> data.len() >= 64 && data[56] + 256 * data[57] > 0 && data[54] + 256
            * data[55] >= 56,
{
}

proof fn lemma_loadable(data: Seq<u8>, off: int, size: int, a: int, n: int, count: int) -> (at: Seq<
    int,
>)
    requires
        0 <= a <= n <= count,
        forall|i: int| a <= i < n ==> off + #[trigger] (i * size) + 56 <= data.len(),
        n < count ==> off + n * size + 56 > data.len(),
    ensures
        ({
            let found = table_from(data, off, size, a, count);
            &&& found.complete == (n == count)
            &&& at.len() == found.segments.len()
            &&& at.len() == found.aligns.len()
            &&& forall|j: int, k: int| 0 <= j < k < at.len() ==> #[trigger] at[j] < #[trigger] at[k]
            &&& forall|k: int|
                0 <= k < at.len() ==> a <= #[trigger] at[k] < n && u32_at(data, off + at[k] * size)
                    == 1
            &&& forall|i: int|
                a <= i < n && u32_at(data, off + #[trigger] (i * size)) == 1 ==> at.contains(i)
            &&& forall|k: int|
                0 <= k < at.len() ==> {
                    let header = off + #[trigger] at[k] * size;
                    &&& found.segments[k].offset == u64_at(data, header + 8)
                    &&& found.segments[k].paddr == u64_at(data, header + 24)
                    &&& found.segments[k].filesz == u64_at(data, header + 32)
                    &&& found.segments[k].memsz == u64_at(data, header + 40)
                    &&& found.segments[k].flags == u32_at(data, header + 4)
                    &&& found.aligns[k] == u64_at(data, header + 48)
                }
        }),
    decreases n - a,
{
    let found = table_from(data, off, size, a, count);
    if a == n {
        assert(a < count ==> off + a * size + 56 > data.len());
        Seq::empty()
    } else {
        assert(off + a * size + 56 <= data.len());
        let rest = lemma_loadable(data, off, size, a + 1, n, count);
        let tail = table_from(data, off, size, a + 1, count);
        if u32_at(data, off + a * size) == 1 {
            let at = seq![a] + rest;
            assert forall|i: int|
                a <= i < n && u32_at(data, off + #[trigger] (i * size)) == 1 implies at.contains(
                i,
            ) by {
                if i == a {
                    assert(at[0] == i);
                } else {
                    let k = choose|k: int| 0 <= k < rest.len() && rest[k] == i;
                    assert(at[k + 1] == i);
                }
            }
            assert forall|k: int| 0 <= k < at.len() implies {
                let header = off + #[trigger] at[k] * size;
                &&& found.segments[k].offset == u64_at(data, header + 8)
                &&& found.segments[k].paddr == u64_at(data, header + 24)
                &&& found.segments[k].filesz == u64_at(data, header + 32)
                &&& found.segments[k].memsz == u64_at(data, header + 40)
                &&& found.segments[k].flags == u32_at(data, header + 4)
                &&& found.aligns[k] == u64_at(data, header + 48)
            } by {
                if k > 0 {
                    assert(at[k] == rest[k - 1]);
                    assert(found.segments[k] == tail.segments[k - 1]);
                    assert(found.aligns[k] == tail.aligns[k - 1]);
                }
            }
            assert forall|k: int| 0 <= k < at.len() implies a <= #[trigger] at[k] < n && u32_at(
                data,
                off + at[k] * size,
            ) == 1 by {
                if k > 0 {
                    assert(at[k] == rest[k - 1]);
                }
            }
            assert forall|j: int, k: int| 0 <= j < k < at.len() implies #[trigger] at[j]
                < #[trigger] at[k] by {
                assert(at[k] == rest[k - 1]);
                if j > 0 {
                    assert(at[j] == rest[j - 1]);
                }
            }
            at
        } else {
            rest
        }
    }
}

/// The segments of a file are its program headers of type 1, every one of them and no other, in the
/// order of the table, up to the first header that leaves the file; headers of other types are
/// skipped. `n` headers lie inside the file; the result names the header of each segment.
pub proof fn law_segments_are_the_loadable_headers(data: Seq<u8>, n: int) -> (at: Seq<int>)
    requires
        data.len() >= 64,
        0 <= n <= u16_at(data, 56),
        forall|i: int|
            0 <= i < n ==> u64_at(data, 32) + #[trigger] (i * u16_at(data, 54)) + 56 <= data.len(),
        n < u16_at(data, 56) ==> u64_at(data, 32) + n * u16_at(data, 54) + 56 > data.len(),
    ensures
        table(data).complete == (n == u16_at(data, 56)),
        at.len() == table(data).segments.len(),
        at.len() == table(data).aligns.len(),
        forall|j: int, k: int| 0 <= j < k < at.len() ==> #[trigger] at[j] < #[trigger] at[k],
        forall|k: int|
            0 <= k < at.len() ==> 0 <= #[trigger] at[k] < n && u32_at(
                data,
                u64_at(data, 32) + at[k] * u16_at(data, 54),
            ) == 1,
        forall|i: int|
            0 <= i < n && u32_at(data, u64_at(data, 32) + #[trigger] (i * u16_at(data, 54))) == 1
                ==> at.contains(i),
        forall|k: int|
            0 <= k < at.len() ==> {
                let header = u64_at(data, 32) + #[trigger] at[k] * u16_at(data, 54);
                &&& table(data).segments[k].offset == u64_at(data, header + 8)
                &&& table(data).segments[k].paddr == u64_at(data, header + 24)
                &&& table(data).segments[k].filesz == u64_at(data, header + 32)
                &&& table(data).segments[k].memsz == u64_at(data, header + 40)
                &&& table(data).segments[k].flags == u32_at(data, header + 4)
                &&& table(data).aligns[k] == u64_at(data, header + 48)
            },
{
    lemma_loadable(
        data,
        u64_at(data, 32) as int,
        u16_at(data, 54) as int,
        0,
        n,
        u16_at(data, 56) as int,
    )
}

/// Whether a segment of a file of `len` bytes is sound: it takes memory, its alignment is 0 or a
/// power of two, its data lies in the file and fits its memory, and it ends inside the address space.
proof fn lemma_fault(len: int, segment: Segment, align: u64)
    ensures
        segment_fault(len, segment, align) is None <==> {
            &&& segment.memsz > 0
            &&& align == 0 || exists|e: nat|
                align == #[trigger] vstd::arithmetic::power2::pow2(e)
            &&& segment.filesz <= segment.memsz
            &&& segment.offset + segment.filesz <= len
            &&& segment.offset + segment.filesz <= u64::MAX
            &&& segment.paddr + segment.memsz <= u64::MAX
        },
{
    law_powers_of_two(align as nat);
}

proof fn lemma_first_fault(len: int, segments: Seq<Segment>, aligns: Seq<u64>)
    requires
        aligns.len() == segments.len(),
    ensures
        match first_fault(len, segments, aligns) {
            None => forall|k: int|
                0 <= k < segments.len() ==> segment_fault(len, #[trigger] segments[k], aligns[k])
                    is None,
            Some(error) => exists|k: int|
                {
                    &&& 0 <= k < segments.len()
                    &&& segment_fault(len, #[trigger] segments[k], aligns[k]) == Some(error)
                    &&& forall|j: int|
                        0 <= j < k ==> segment_fault(len, #[trigger] segments[j], aligns[j])
                            is None
                },
        },
    decreases segments.len(),
{
    if segments.len() > 0 {
        let (rest, others) = (segments.skip(1), aligns.skip(1));
        lemma_first_fault(len, rest, others);
        if segment_fault(len, segments[0], aligns[0]) is None {
            match first_fault(len, rest, others) {
                None => {
                    assert forall|k: int| 0 <= k < segments.len() implies segment_fault(
                        len,
                        #[trigger] segments[k],
                        aligns[k],
                    ) is None by {
                        if k > 0 {
                            assert(rest[k - 1] == segments[k] && others[k - 1] == aligns[k]);
                        }
                    }
                },
                Some(error) => {
                    let k = choose|k: int|
                        {
                            &&& 0 <= k < rest.len()
                            &&& segment_fault(len, #[trigger] rest[k], others[k]) == Some(error)
                            &&& forall|j: int|
                                0 <= j < k ==> segment_fault(len, #[trigger] rest[j], others[j])
                                    is None
                        };
                    assert(rest[k] == segments[k + 1] && others[k] == aligns[k + 1]);
                    assert forall|j: int| 0 <= j < k + 1 implies segment_fault(
                        len,
                        #[trigger] segments[j],
                        aligns[j],
                    ) is None by {
                        if j > 0 {
                            assert(rest[j - 1] == segments[j] && others[j - 1] == aligns[j]);
                        }
                    }
                },
            }
        } else {
            assert(segment_fault(len, segments[0], aligns[0]) is Some);
        }
    }
}

/// How many headers of a table lie inside the file, counted from the first one.
proof fn lemma_inside(data: Seq<u8>, off: int, size: int, a: int, count: int) -> (n: int)
    requires
        0 <= a <= count,
    ensures
        a <= n <= count,
        forall|i: int| a <= i < n ==> off + #[trigger] (i * size) + 56 <= data.len(),
        n < count ==> off + n * size + 56 > data.len(),
    decreases count - a,
{
    if a == count || off + a * size + 56 > data.len() {
        a
    } else {
        lemma_inside(data, off, size, a + 1, count)
    }
}

/// Every segment has its alignment.
proof fn lemma_same_length(data: Seq<u8>)
    requires
        data.len() >= 64,
    ensures
        table(data).aligns.len() == table(data).segments.len(),
{
    let n = lemma_inside(
        data,
        u64_at(data, 32) as int,
        u16_at(data, 54) as int,
        0,
        u16_at(data, 56) as int,
    );
    let _ = law_segments_are_the_loadable_headers(data, n);
}

/// The segments of a file pass exactly if there is a usable table that lies inside the file, at
/// least one segment, and every one of them is sound; the number of segments is reported.
pub proof fn law_which_segments_pass(data: Seq<u8>)
    requires
        data.len() <= usize::MAX,
    ensures
        segments_check(data) is Ok <==> {
            &&& has_table(data)
            &&& table(data).complete
            &&& table(data).segments.len() > 0
            &&& forall|k: int|
                #![trigger table(data).segments[k]]
                0 <= k < table(data).segments.len() ==> {
                    let segment = table(data).segments[k];
                    &&& segment.memsz > 0
                    &&& table(data).aligns[k] == 0 || exists|e: nat|
                        table(data).aligns[k] == #[trigger] vstd::arithmetic::power2::pow2(e)
                    &&& segment.filesz <= segment.memsz
                    &&& segment.offset + segment.filesz <= data.len()
                    &&& segment.paddr + segment.memsz <= u64::MAX
                }
        },
        segments_check(data) is Ok ==> segments_check(data)->Ok_0 == table(
            data,
        ).segments.len() as usize,
{
    if has_table(data) {
        lemma_same_length(data);
        let found = table(data);
        lemma_first_fault(data.len() as int, found.segments, found.aligns);
        assert forall|k: int| 0 <= k < found.segments.len() implies segment_fault(
            data.len() as int,
            #[trigger] found.segments[k],
            found.aligns[k],
        ) is None <==> {
            let segment = found.segments[k];
            &&& segment.memsz > 0
            &&& found.aligns[k] == 0 || exists|e: nat|
                found.aligns[k] == #[trigger] vstd::arithmetic::power2::pow2(e)
            &&& segment.filesz <= segment.memsz
            &&& segment.offset + segment.filesz <= data.len()
            &&& segment.paddr + segment.memsz <= u64::MAX
        } by {
            lemma_fault(data.len() as int, found.segments[k], found.aligns[k]);
        }
    }
}

/// The first segment that is not sound decides what is reported: that it is empty, that its
/// alignment is no power of two, that it has more bytes in the file than in memory, that its data
/// leaves the file, or that a range overflows.
pub proof fn law_the_first_bad_segment_is_reported(data: Seq<u8>, k: int)
    requires
        data.len() <= usize::MAX,
        has_table(data),
        0 <= k < table(data).segments.len(),
        forall|j: int|
            #![trigger table(data).segments[j]]
            0 <= j < k ==> {
                let segment = table(data).segments[j];
                &&& segment.memsz > 0
                &&& table(data).aligns[j] == 0 || exists|e: nat|
                    table(data).aligns[j] == #[trigger] vstd::arithmetic::power2::pow2(e)
                &&& segment.filesz <= segment.memsz
                &&& segment.offset + segment.filesz <= data.len()
                &&& segment.paddr + segment.memsz <= u64::MAX
            },
    ensures
        ({
            let segment = table(data).segments[k];
            let align = table(data).aligns[k];
            let aligned = align == 0 || exists|e: nat|
                align == #[trigger] vstd::arithmetic::power2::pow2(e);
            let data_end = segment.offset + segment.filesz;
            let full = segment.memsz > 0 && aligned;
            &&& segment.memsz == 0 ==> segments_check(data) == Err::<usize, SegmentError>(
                SegmentError::EmptySegment,
            )
            &&& segment.memsz > 0 && !aligned ==> segments_check(data) == Err::<
                usize,
                SegmentError,
            >(SegmentError::BadProgramHeaders)
            &&& full && segment.filesz > segment.memsz ==> segments_check(data) == Err::<
                usize,
                SegmentError,
            >(SegmentError::FileszLargerThanMemsz)
            &&& full && segment.filesz <= segment.memsz && data_end > u64::MAX ==> segments_check(
                data,
            ) == Err::<usize, SegmentError>(SegmentError::AddressOverflow)
            &&& full && segment.filesz <= segment.memsz && data.len() < data_end <= u64::MAX
                ==> segments_check(data) == Err::<usize, SegmentError>(
                SegmentError::DataOutOfBounds,
            )
            &&& full && segment.filesz <= segment.memsz && data_end <= data.len() && segment.paddr
                + segment.memsz > u64::MAX ==> segments_check(data) == Err::<usize, SegmentError>(
                SegmentError::AddressOverflow,
            )
        }),
{
    lemma_same_length(data);
    let found = table(data);
    let len = data.len() as int;
    lemma_first_fault(len, found.segments, found.aligns);
    law_powers_of_two(found.aligns[k] as nat);
    assert forall|j: int| 0 <= j < k implies segment_fault(
        len,
        #[trigger] found.segments[j],
        found.aligns[j],
    ) is None by {
        lemma_fault(len, found.segments[j], found.aligns[j]);
    }
    if segment_fault(len, found.segments[k], found.aligns[k]) is Some {
        let error = first_fault(len, found.segments, found.aligns)->0;
        let i = choose|i: int|
            {
                &&& 0 <= i < found.segments.len()
                &&& segment_fault(len, #[trigger] found.segments[i], found.aligns[i]) == Some(error)
                &&& forall|j: int|
                    0 <= j < i ==> segment_fault(len, #[trigger] found.segments[j], found.aligns[j])
                        is None
            };
        assert(i == k);
    }
}

proof fn lemma_overlaps(segments: Seq<Segment>, from: int)
    requires
        0 <= from <= segments.len(),
        forall|i: int|
            0 <= i < segments.len() ==> (#[trigger] segments[i]).paddr + segments[i].memsz
                <= u64::MAX,
    ensures
        first_overlap_fault(segments, from) is None <==> forall|i: int, j: int|
            0 <= j < i && from <= i < segments.len() ==> {
                ||| (#[trigger] segments[i]).memsz == 0
                ||| (#[trigger] segments[j]).memsz == 0
                ||| segments[i].paddr + segments[i].memsz <= segments[j].paddr
                ||| segments[j].paddr + segments[j].memsz <= segments[i].paddr
            },
        first_overlap_fault(segments, from) matches Some(error) ==> error
            == SegmentError::OverlappingSegments,
    decreases segments.len() - from,
{
    if from < segments.len() {
        lemma_overlaps(segments, from + 1);
        assert(segments[from].paddr + segments[from].memsz <= u64::MAX);
        if overlap_fault(segments, from) is Some {
            let j = choose|j: int|
                0 <= j < from && overlapping(segments[from], #[trigger] segments[j]);
            assert(segments[from].memsz > 0 && segments[j].memsz > 0);
        } else {
            assert forall|j: int| 0 <= j < from implies {
                ||| segments[from].memsz == 0
                ||| (#[trigger] segments[j]).memsz == 0
                ||| segments[from].paddr + segments[from].memsz <= segments[j].paddr
                ||| segments[j].paddr + segments[j].memsz <= segments[from].paddr
            } by {
                assert(!overlapping(segments[from], segments[j]));
            }
        }
    }
}

/// Segments pass as disjoint exactly if no byte of memory belongs to two of them, however many
/// there are; else an overlap is reported.
pub proof fn law_segments_share_no_byte(data: Seq<u8>)
    requires
        has_table(data),
        table(data).complete,
        forall|i: int|
            0 <= i < table(data).segments.len() ==> (#[trigger] table(data).segments[i]).paddr
                + table(data).segments[i].memsz <= u64::MAX,
    ensures
        overlap_check(data) is Ok <==> forall|i: int, j: int|
            0 <= j < i && 0 <= i < table(data).segments.len() ==> {
                ||| (#[trigger] table(data).segments[i]).memsz == 0
                ||| (#[trigger] table(data).segments[j]).memsz == 0
                ||| table(data).segments[i].paddr + table(data).segments[i].memsz <= table(
                    data,
                ).segments[j].paddr
                ||| table(data).segments[j].paddr + table(data).segments[j].memsz <= table(
                    data,
                ).segments[i].paddr
            },
        overlap_check(data) is Err ==> overlap_check(data) == Err::<(), SegmentError>(
            SegmentError::OverlappingSegments,
        ),
{
    lemma_overlaps(table(data).segments, 0);
}

proof fn lemma_entries(segments: Seq<Segment>, entry: u64)
    requires
        forall|i: int|
            0 <= i < segments.len() ==> (#[trigger] segments[i]).paddr + segments[i].memsz
                <= u64::MAX,
    ensures
        match first_entry_verdict(segments, entry) {
            None => forall|i: int|
                0 <= i < segments.len() ==> !((#[trigger] segments[i]).flags & 1 != 0
                    && segments[i].paddr <= entry < segments[i].paddr + segments[i].memsz),
            Some(verdict) => verdict == Ok::<(), SegmentError>(()) && exists|i: int|
                0 <= i < segments.len() && (#[trigger] segments[i]).flags & 1 != 0
                    && segments[i].paddr <= entry < segments[i].paddr + segments[i].memsz,
        },
    decreases segments.len(),
{
    if segments.len() > 0 {
        let rest = segments.skip(1);
        assert forall|i: int| 0 <= i < rest.len() implies (#[trigger] rest[i]).paddr
            + rest[i].memsz <= u64::MAX by {
            assert(rest[i] == segments[i + 1]);
        }
        lemma_entries(rest, entry);
        assert(segments[0].paddr + segments[0].memsz <= u64::MAX);
        if entry_verdict(segments[0], entry) is None {
            if first_entry_verdict(rest, entry) is None {
                assert forall|i: int| 0 <= i < segments.len() implies !(
                (#[trigger] segments[i]).flags & 1 != 0 && segments[i].paddr <= entry
                    < segments[i].paddr + segments[i].memsz) by {
                    if i > 0 {
                        assert(rest[i - 1] == segments[i]);
                    }
                }
            } else {
                let i = choose|i: int|
                    0 <= i < rest.len() && (#[trigger] rest[i]).flags & 1 != 0 && rest[i].paddr
                        <= entry < rest[i].paddr + rest[i].memsz;
                assert(segments[i + 1] == rest[i]);
            }
        } else {
            assert(segments[0].flags & 1 != 0);
        }
    }
}

/// An entry point passes exactly if a segment with the executable bit (bit 0 of its flags) holds
/// it.
pub proof fn law_the_entry_lies_in_executable_memory(data: Seq<u8>, entry: u64)
    requires
        has_table(data),
        table(data).complete,
        forall|i: int|
            0 <= i < table(data).segments.len() ==> (#[trigger] table(data).segments[i]).paddr
                + table(data).segments[i].memsz <= u64::MAX,
    ensures
        entry_check(data, entry) is Ok <==> exists|i: int|
            0 <= i < table(data).segments.len() && (#[trigger] table(data).segments[i]).flags & 1
                != 0 && table(data).segments[i].paddr <= entry < table(data).segments[i].paddr
                + table(data).segments[i].memsz,
        entry_check(data, entry) is Err ==> entry_check(data, entry) == Err::<(), SegmentError>(
            SegmentError::EntryNotExecutable,
        ),
{
    lemma_entries(table(data).segments, entry);
}

/// The span of some segments starts and ends on a page, holds every byte of every segment, and
/// starts and ends less than a page from one of them.
pub proof fn law_the_span_is_tight(segments: Seq<Segment>)
    ensures
        span_of(segments) is None <==> segments.len() == 0,
        span_of(segments) matches Some((low, high)) ==> {
            &&& low % 4096 == 0
            &&& high % 4096 == 0
            &&& forall|i: int|
                0 <= i < segments.len() ==> low <= (#[trigger] segments[i]).paddr
                    && segments[i].paddr + segments[i].memsz <= high
            &&& exists|i: int| 0 <= i < segments.len() && (#[trigger] segments[i]).paddr < low + 4096
            &&& exists|i: int|
                0 <= i < segments.len() && high < (#[trigger] segments[i]).paddr + segments[i].memsz
                    + 4096
        },
{
    if segments.len() > 0 {
        law_span_covers_every_segment(segments);
        let (low, high) = span_of(segments)->0;
        let i = choose|i: int|
            0 <= i < segments.len() && (#[trigger] segments[i]).first_page() == low;
        let j = choose|j: int|
            0 <= j < segments.len() && (#[trigger] segments[j]).last_page_end() == high;
        assert(segments[i].paddr < low + 4096);
        assert(high < segments[j].paddr + segments[j].memsz + 4096);
    }
}

proof fn lemma_overflow_is_a_fault(segments: Seq<Segment>, from: int, k: int)
    requires
        0 <= from <= k < segments.len(),
        segments[k].paddr + segments[k].memsz > u64::MAX,
    ensures
        first_overlap_fault(segments, from) is Some,
    decreases k - from,
{
    if from < k {
        lemma_overflow_is_a_fault(segments, from + 1, k);
    }
}

/// No check passes a file without a usable table, or one whose table leaves the file; nor does the
/// overlap check pass a segment that leaves the address space.
pub proof fn law_unusable_tables_are_refused(data: Seq<u8>, k: int)
    ensures
        !has_table(data) ==> {
            &&& segments_check(data) == Err::<usize, SegmentError>(SegmentError::BadProgramHeaders)
            &&& overlap_check(data) == Err::<(), SegmentError>(SegmentError::BadProgramHeaders)
            &&& forall|entry: u64|
                #[trigger] entry_check(data, entry) == Err::<(), SegmentError>(
                    SegmentError::BadProgramHeaders,
                )
        },
        has_table(data) && !table(data).complete ==> {
            &&& segments_check(data) is Err
            &&& overlap_check(data) is Err
        },
        has_table(data) && !table(data).complete && table(data).segments.len() == 0 ==> {
            &&& overlap_check(data) == Err::<(), SegmentError>(SegmentError::BadProgramHeaders)
            &&& segments_check(data) == Err::<usize, SegmentError>(SegmentError::BadProgramHeaders)
        },
        has_table(data) && 0 <= k < table(data).segments.len() && table(data).segments[k].paddr
            + table(data).segments[k].memsz > u64::MAX ==> overlap_check(data) is Err,
{
    if has_table(data) && 0 <= k < table(data).segments.len() && table(data).segments[k].paddr
        + table(data).segments[k].memsz > u64::MAX {
        lemma_overflow_is_a_fault(table(data).segments, 0, k);
    }
}

/// Sound segments do not help a table that leaves the file, or one without a segment.
pub proof fn law_sound_segments_are_not_enough(data: Seq<u8>)
    requires
        data.len() <= usize::MAX,
        has_table(data),
        !table(data).complete || table(data).segments.len() == 0,
        forall|k: int|
            #![trigger table(data).segments[k]]
            0 <= k < table(data).segments.len() ==> {
                let segment = table(data).segments[k];
                &&& segment.memsz > 0
                &&& table(data).aligns[k] == 0 || exists|e: nat|
                    table(data).aligns[k] == #[trigger] vstd::arithmetic::power2::pow2(e)
                &&& segment.filesz <= segment.memsz
                &&& segment.offset + segment.filesz <= data.len()
                &&& segment.paddr + segment.memsz <= u64::MAX
            },
    ensures
        segments_check(data) == Err::<usize, SegmentError>(SegmentError::BadProgramHeaders),
{
    lemma_same_length(data);
    let found = table(data);
    lemma_first_fault(data.len() as int, found.segments, found.aligns);
    assert forall|k: int| 0 <= k < found.segments.len() implies segment_fault(
        data.len() as int,
        #[trigger] found.segments[k],
        found.aligns[k],
    ) is None by {
        lemma_fault(data.len() as int, found.segments[k], found.aligns[k]);
    }
}

proof fn lemma_clash_at(segments: Seq<Segment>, from: int, k: int)
    requires
        0 <= from <= k <= segments.len(),
        forall|i: int| 0 <= i < k ==> overlap_fault(segments, i) is None,
    ensures
        k < segments.len() && overlap_fault(segments, k) is Some ==> first_overlap_fault(
            segments,
            from,
        ) == overlap_fault(segments, k),
        k == segments.len() ==> first_overlap_fault(segments, from) is None,
    decreases k - from,
{
    if from < k {
        lemma_clash_at(segments, from + 1, k);
    }
}

/// The first segment that leaves the address space, or shares a byte with one before it, decides
/// what the overlap check reports. Without one, a table that leaves the file is reported.
pub proof fn law_the_first_clash_is_reported(data: Seq<u8>, k: int)
    requires
        has_table(data),
        0 <= k <= table(data).segments.len(),
        forall|i: int|
            0 <= i < k ==> (#[trigger] table(data).segments[i]).paddr + table(data).segments[i].memsz
                <= u64::MAX,
        forall|i: int, j: int|
            0 <= j < i < k ==> {
                ||| (#[trigger] table(data).segments[i]).memsz == 0
                ||| (#[trigger] table(data).segments[j]).memsz == 0
                ||| table(data).segments[i].paddr + table(data).segments[i].memsz <= table(
                    data,
                ).segments[j].paddr
                ||| table(data).segments[j].paddr + table(data).segments[j].memsz <= table(
                    data,
                ).segments[i].paddr
            },
    ensures
        ({
            let segments = table(data).segments;
            &&& k < segments.len() && segments[k].paddr + segments[k].memsz > u64::MAX
                ==> overlap_check(data) == Err::<(), SegmentError>(SegmentError::AddressOverflow)
            &&& k < segments.len() && segments[k].paddr + segments[k].memsz <= u64::MAX && (exists|j: int|
                {
                    &&& 0 <= j < k
                    &&& segments[k].memsz > 0
                    &&& (#[trigger] segments[j]).memsz > 0
                    &&& segments[k].paddr < segments[j].paddr + segments[j].memsz
                    &&& segments[j].paddr < segments[k].paddr + segments[k].memsz
                }) ==> overlap_check(data) == Err::<(), SegmentError>(
                SegmentError::OverlappingSegments,
            )
            &&& k == segments.len() && !table(data).complete ==> overlap_check(data) == Err::<
                (),
                SegmentError,
            >(SegmentError::BadProgramHeaders)
        }),
{
    let segments = table(data).segments;
    assert forall|i: int| 0 <= i < k implies overlap_fault(segments, i) is None by {
        assert(segments[i].paddr + segments[i].memsz <= u64::MAX);
        assert forall|j: int| 0 <= j < i implies !overlapping(segments[i], #[trigger] segments[j]) by {}
    }
    lemma_clash_at(segments, 0, k);
    if exists|j: int|
        {
            &&& 0 <= j < k
            &&& segments[k].memsz > 0
            &&& (#[trigger] segments[j]).memsz > 0
            &&& segments[k].paddr < segments[j].paddr + segments[j].memsz
            &&& segments[j].paddr < segments[k].paddr + segments[k].memsz
        } {
        let j = choose|j: int|
            {
                &&& 0 <= j < k
                &&& segments[k].memsz > 0
                &&& (#[trigger] segments[j]).memsz > 0
                &&& segments[k].paddr < segments[j].paddr + segments[j].memsz
                &&& segments[j].paddr < segments[k].paddr + segments[k].memsz
            };
        assert(overlapping(segments[k], segments[j]));
    }
}

proof fn lemma_entry_at(segments: Seq<Segment>, entry: u64, k: int)
    requires
        0 <= k <= segments.len(),
        forall|i: int| 0 <= i < k ==> entry_verdict(#[trigger] segments[i], entry) is None,
    ensures
        k < segments.len() && entry_verdict(segments[k], entry) is Some ==> first_entry_verdict(
            segments,
            entry,
        ) == entry_verdict(segments[k], entry),
        k == segments.len() ==> first_entry_verdict(segments, entry) is None,
    decreases segments.len(),
{
    if k > 0 {
        let rest = segments.skip(1);
        assert forall|i: int| 0 <= i < k - 1 implies entry_verdict(#[trigger] rest[i], entry)
            is None by {
            assert(rest[i] == segments[i + 1]);
        }
        assert(entry_verdict(segments[0], entry) is None);
        lemma_entry_at(rest, entry, k - 1);
    }
}

/// The first segment that leaves the address space, or is executable and holds the entry point,
/// decides about the entry point. Without one, a table that leaves the file is reported.
pub proof fn law_the_first_word_on_the_entry(data: Seq<u8>, entry: u64, k: int)
    requires
        has_table(data),
        0 <= k <= table(data).segments.len(),
        forall|i: int|
            0 <= i < k ==> (#[trigger] table(data).segments[i]).paddr + table(data).segments[i].memsz
                <= u64::MAX && !(table(data).segments[i].flags & 1 != 0 && table(
                data,
            ).segments[i].paddr <= entry < table(data).segments[i].paddr + table(
                data,
            ).segments[i].memsz),
    ensures
        ({
            let segments = table(data).segments;
            &&& k < segments.len() && segments[k].paddr + segments[k].memsz > u64::MAX
                ==> entry_check(data, entry) == Err::<(), SegmentError>(
                SegmentError::AddressOverflow,
            )
            &&& k < segments.len() && segments[k].paddr + segments[k].memsz <= u64::MAX
                && segments[k].flags & 1 != 0 && segments[k].paddr <= entry < segments[k].paddr
                + segments[k].memsz ==> entry_check(data, entry) is Ok
            &&& k == segments.len() ==> entry_check(data, entry) == Err::<(), SegmentError>(
                if table(data).complete {
                    SegmentError::EntryNotExecutable
                } else {
                    SegmentError::BadProgramHeaders
                },
            )
        }),
{
    let segments = table(data).segments;
    assert forall|i: int| 0 <= i < k implies entry_verdict(#[trigger] segments[i], entry)
        is None by {
        assert(segments[i].paddr + segments[i].memsz <= u64::MAX);
    }
    lemma_entry_at(segments, entry, k);
}

} // verus!
