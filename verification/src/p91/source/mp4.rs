//! Read MP4 track dimensions without downloading the media data.
use vstd::prelude::*;
use vstd::slice::slice_subrange;
use crate::text::{
    begins, copy_range, index_of, parse_unsigned, position, starts_with, to_chars,
    unsigned_at_most,
};

verus! {

/// The number that bytes write, the most significant first.
pub open spec fn big_endian(b: Seq<u8>) -> nat
    decreases b.len(),
{
    if b.len() == 0 {
        0
    } else {
        big_endian(b.drop_last()) * 256 + b.last() as nat
    }
}

/// The size of a box and of its header, where `b` starts with a box header.
pub open spec fn header_of(b: Seq<u8>) -> Option<(nat, nat)> {
    if b.len() < 8 {
        None
    } else {
        let short = big_endian(b.take(4));
        if short != 1 {
            if short >= 8 {
                Some((short, 8nat))
            } else {
                None
            }
        } else if b.len() < 16 {
            None
        } else {
            let long = big_endian(b.subrange(8, 16));
            if long >= 16 {
                Some((long, 16nat))
            } else {
                None
            }
        }
    }
}

/// The kind of the box that `b` starts with.
pub open spec fn kind_of(b: Seq<u8>) -> Seq<u8> {
    b.subrange(4, 8)
}

proof fn lemma_big_endian_4(b: Seq<u8>)
    requires
        b.len() == 4,
    ensures
        big_endian(b) == b[0] * 0x100_0000 + b[1] * 0x1_0000 + b[2] * 0x100 + b[3],
        big_endian(b) <= u32::MAX,
{
    let c = b.drop_last();
    let d = c.drop_last();
    let e = d.drop_last();
    let f = e.drop_last();
    assert(f.len() == 0);
    assert(big_endian(f) == 0);
    assert(big_endian(e) == b[0]);
    assert(big_endian(d) == b[0] * 0x100 + b[1]);
    assert(big_endian(c) == b[0] * 0x1_0000 + b[1] * 0x100 + b[2]);
}

/// The number that four bytes write, the most significant first.
fn read_u32(b: &[u8], at: usize) -> (r: u32)
    requires
        at + 4 <= b@.len(),
    ensures
        r == big_endian(b@.subrange(at as int, at + 4)),
{
    proof {
        let w = b@.subrange(at as int, at + 4);
        lemma_big_endian_4(w);
        assert(w[0] == b@[at as int] && w[1] == b@[at + 1] && w[2] == b@[at + 2] && w[3] == b@[at
            + 3]);
    }
    b[at] as u32 * 0x100_0000 + b[at + 1] as u32 * 0x1_0000 + b[at + 2] as u32 * 0x100 + b[at + 3] as u32
}

proof fn lemma_big_endian_split(a: Seq<u8>, b: Seq<u8>)
    requires
        b.len() == 4,
    ensures
        big_endian(a + b) == big_endian(a) * 0x1_0000_0000 + big_endian(b),
{
    lemma_big_endian_4(b);
    let w = a + b;
    let c = w.drop_last();
    let d = c.drop_last();
    let e = d.drop_last();
    let f = e.drop_last();
    assert(f =~= a);
    assert(w.last() == b[3]);
    assert(c.last() == b[2]);
    assert(d.last() == b[1]);
    assert(e.last() == b[0]);
    assert(big_endian(e) == big_endian(a) * 256 + b[0]);
    assert(big_endian(d) == big_endian(e) * 256 + b[1]);
    assert(big_endian(c) == big_endian(d) * 256 + b[2]);
    assert(big_endian(w) == big_endian(c) * 256 + b[3]);
}

/// The number that eight bytes write, the most significant first.
fn read_u64(b: &[u8], at: usize) -> (r: u64)
    requires
        at + 8 <= b@.len(),
    ensures
        r == big_endian(b@.subrange(at as int, at + 8)),
{
    let n = b.len();
    assert(at + 8 <= n);
    let high = read_u32(b, at);
    let low = read_u32(b, at + 4);
    proof {
        let x = b@.subrange(at as int, at + 4);
        let y = b@.subrange(at + 4, at + 8);
        lemma_big_endian_split(x, y);
        assert(x + y =~= b@.subrange(at as int, at + 8));
    }
    high as u64 * 0x1_0000_0000 + low as u64
}

/// The size of a box and the length of its header.
pub fn box_header(bytes: &[u8]) -> (r: Option<(u64, usize)>)
    ensures
        match r {
            Some((size, header)) => header_of(bytes@) == Some((size as nat, header as nat)),
            None => header_of(bytes@) is None,
        },
{
    if bytes.len() < 8 {
        return None;
    }
    let short = read_u32(bytes, 0);
    assert(bytes@.subrange(0, 4) =~= bytes@.take(4));
    if short != 1 {
        if short >= 8 {
            Some((short as u64, 8))
        } else {
            None
        }
    } else if bytes.len() < 16 {
        None
    } else {
        let long = read_u64(bytes, 8);
        if long >= 16 {
            Some((long, 16))
        } else {
            None
        }
    }
}

/// The boxes that `b` holds one after another, each with its kind and its body,
/// up to the first that is not complete.
pub open spec fn boxes_in(b: Seq<u8>) -> Seq<(Seq<u8>, Seq<u8>)>
    decreases b.len(),
{
    match header_of(b) {
        Some((size, header)) => if 8 <= header <= size <= b.len() {
            seq![(kind_of(b), b.subrange(header as int, size as int))] + boxes_in(
                b.skip(size as int),
            )
        } else {
            Seq::empty()
        },
        None => Seq::empty(),
    }
}

/// The body of the first box of a kind.
pub open spec fn first_box(boxes: Seq<(Seq<u8>, Seq<u8>)>, kind: Seq<u8>) -> Option<Seq<u8>>
    decreases boxes.len(),
{
    if boxes.len() == 0 {
        None
    } else if boxes[0].0 == kind {
        Some(boxes[0].1)
    } else {
        first_box(boxes.skip(1), kind)
    }
}

/// A box: its kind and its body.
#[derive(Debug)]
pub struct Mp4Box<'a> {
    pub kind: &'a [u8],
    pub body: &'a [u8],
}

/// The kinds and bodies of some boxes.
pub open spec fn box_views(v: Seq<Mp4Box<'_>>) -> Seq<(Seq<u8>, Seq<u8>)> {
    Seq::new(v.len(), |i: int| (v[i].kind@, v[i].body@))
}

/// The boxes that some bytes hold one after another, up to the first that is not
/// complete.
pub fn boxes<'a>(bytes: &'a [u8]) -> (r: Vec<Mp4Box<'a>>)
    ensures
        box_views(r@) == boxes_in(bytes@),
{
    let mut r: Vec<Mp4Box<'a>> = Vec::new();
    let mut from: usize = 0;
    assert(bytes@.skip(0) =~= bytes@);
    assert(box_views(r@) + boxes_in(bytes@) =~= boxes_in(bytes@));
    loop
        invariant
            from <= bytes@.len(),
            boxes_in(bytes@) == box_views(r@) + boxes_in(bytes@.skip(from as int)),
        decreases bytes@.len() - from,
    {
        let rest = slice_subrange(bytes, from, bytes.len());
        assert(rest@ =~= bytes@.skip(from as int));
        let (size, header) = match box_header(rest) {
            Some(h) => h,
            None => {
                assert(box_views(r@) + boxes_in(rest@) =~= box_views(r@));
                return r;
            },
        };
        if size > rest.len() as u64 {
            assert(box_views(r@) + boxes_in(rest@) =~= box_views(r@));
            return r;
        }
        let size = size as usize;
        let kind = slice_subrange(rest, 4, 8);
        let body = slice_subrange(rest, header, size);
        let ghost before = box_views(r@);
        r.push(Mp4Box { kind, body });
        proof {
            let one = (kind@, body@);
            assert(box_views(r@) =~= before + seq![one]);
            assert(rest@.skip(size as int) =~= bytes@.skip(from + size));
            assert(before + (seq![one] + boxes_in(bytes@.skip(from + size))) =~= (before + seq![
                one,
            ]) + boxes_in(bytes@.skip(from + size)));
        }
        from = from + size;
    }
}

fn same_bytes(a: &[u8], b: &[u8]) -> (r: bool)
    ensures
        r == (a@ == b@),
{
    if a.len() != b.len() {
        return false;
    }
    let mut i: usize = 0;
    while i < a.len()
        invariant
            a@.len() == b@.len(),
            i <= a@.len(),
            forall|j: int| 0 <= j < i ==> a@[j] == b@[j],
        decreases a@.len() - i,
    {
        if a[i] != b[i] {
            return false;
        }
        i += 1;
    }
    assert(a@ =~= b@);
    true
}

/// Four bytes that name a kind.
pub open spec fn four(a: u8, b: u8, c: u8, d: u8) -> Seq<u8> {
    seq![a, b, c, d]
}

/// The kind of a track.
pub open spec fn trak() -> Seq<u8> {
    four(116, 114, 97, 107)
}

/// The kind of a track's media.
pub open spec fn mdia() -> Seq<u8> {
    four(109, 100, 105, 97)
}

/// The kind of what handles a track's media.
pub open spec fn hdlr() -> Seq<u8> {
    four(104, 100, 108, 114)
}

/// The kind of a track's header.
pub open spec fn tkhd() -> Seq<u8> {
    four(116, 107, 104, 100)
}

/// The handler of video.
pub open spec fn vide() -> Seq<u8> {
    four(118, 105, 100, 101)
}

/// The kind of a file's metadata.
pub open spec fn moov() -> Seq<u8> {
    four(109, 111, 111, 118)
}

fn find_box<'a>(bytes: &'a [u8], kind: &[u8; 4]) -> (r: Option<&'a [u8]>)
    ensures
        match r {
            Some(body) => first_box(boxes_in(bytes@), kind@) == Some(body@),
            None => first_box(boxes_in(bytes@), kind@) is None,
        },
{
    let list = boxes(bytes);
    let ghost all = boxes_in(bytes@);
    let mut i: usize = 0;
    assert(all.skip(0) =~= all);
    while i < list.len()
        invariant
            i <= list@.len(),
            all == box_views(list@),
            all == boxes_in(bytes@),
            first_box(all, kind@) == first_box(all.skip(i as int), kind@),
        decreases list@.len() - i,
    {
        assert(all.skip(i as int)[0] == (list@[i as int].kind@, list@[i as int].body@));
        assert(all.skip(i as int).skip(1) =~= all.skip(i + 1));
        if same_bytes(list[i].kind, kind.as_slice()) {
            return Some(list[i].body);
        }
        i += 1;
    }
    None
}

/// The dimensions in the header of a track: unsigned 16.16 fixed-point values,
/// whose place depends on the header's version.
pub open spec fn header_size(header: Seq<u8>) -> Option<(u64, u64)> {
    if header.len() == 0 || header[0] > 1 {
        None
    } else {
        let at = if header[0] == 0 {
            76int
        } else {
            88
        };
        if header.len() < at + 8 {
            None
        } else {
            let width = big_endian(header.subrange(at, at + 4)) / 0x1_0000;
            let height = big_endian(header.subrange(at + 4, at + 8)) / 0x1_0000;
            if width > 0 && height > 0 {
                Some((width as u64, height as u64))
            } else {
                None
            }
        }
    }
}

/// The dimensions of a track, where it is one of video.
pub open spec fn track_size(track: Seq<u8>) -> Option<(u64, u64)> {
    match first_box(boxes_in(track), mdia()) {
        Some(media) => match first_box(boxes_in(media), hdlr()) {
            Some(handler) => if handler.len() >= 12 && handler.subrange(8, 12) == vide() {
                match first_box(boxes_in(track), tkhd()) {
                    Some(header) => header_size(header),
                    None => None,
                }
            } else {
                None
            },
            None => None,
        },
        None => None,
    }
}

fn read_header_size(header: &[u8]) -> (r: Option<(u64, u64)>)
    ensures
        r == header_size(header@),
{
    if header.len() == 0 || header[0] > 1 {
        return None;
    }
    let at: usize = if header[0] == 0 {
        76
    } else {
        88
    };
    if header.len() < at + 8 {
        return None;
    }
    let width = read_u32(header, at) / 0x1_0000;
    let height = read_u32(header, at + 4) / 0x1_0000;
    if width > 0 && height > 0 {
        Some((width as u64, height as u64))
    } else {
        None
    }
}

fn read_track_size(track: &[u8]) -> (r: Option<(u64, u64)>)
    ensures
        r == track_size(track@),
{
    let k_mdia: [u8; 4] = [109, 100, 105, 97];
    let k_hdlr: [u8; 4] = [104, 100, 108, 114];
    let k_tkhd: [u8; 4] = [116, 107, 104, 100];
    let k_vide: [u8; 4] = [118, 105, 100, 101];
    assert(k_mdia@ =~= mdia());
    assert(k_hdlr@ =~= hdlr());
    assert(k_tkhd@ =~= tkhd());
    assert(k_vide@ =~= vide());
    let media = match find_box(track, &k_mdia) {
        Some(b) => b,
        None => {
            return None;
        },
    };
    let handler = match find_box(media, &k_hdlr) {
        Some(b) => b,
        None => {
            return None;
        },
    };
    if handler.len() < 12 || !same_bytes(slice_subrange(handler, 8, 12), k_vide.as_slice()) {
        return None;
    }
    match find_box(track, &k_tkhd) {
        Some(header) => read_header_size(header),
        None => None,
    }
}

/// The shorter side.
pub open spec fn shorter(size: (u64, u64)) -> u64 {
    if size.0 <= size.1 {
        size.0
    } else {
        size.1
    }
}

/// The largest dimensions, by the shorter side, among the first `n` boxes that
/// are video tracks; of equal ones the last.
pub open spec fn largest(boxes: Seq<(Seq<u8>, Seq<u8>)>, n: int) -> Option<(u64, u64)>
    decreases n,
{
    if n <= 0 {
        None
    } else {
        let best = largest(boxes, n - 1);
        let here = if boxes[n - 1].0 == trak() {
            track_size(boxes[n - 1].1)
        } else {
            None
        };
        match (best, here) {
            (Some(b), Some(h)) => if shorter(h) >= shorter(b) {
                here
            } else {
                best
            },
            (None, _) => here,
            (_, None) => best,
        }
    }
}

fn shorter_side(size: (u64, u64)) -> (r: u64)
    ensures
        r == shorter(size),
{
    if size.0 <= size.1 {
        size.0
    } else {
        size.1
    }
}

/// The dimensions of the largest video track in a file's metadata.
pub fn track_dimensions(metadata: &[u8]) -> (r: Option<(u64, u64)>)
    ensures
        r == largest(boxes_in(metadata@), boxes_in(metadata@).len() as int),
{
    let k_trak: [u8; 4] = [116, 114, 97, 107];
    assert(k_trak@ =~= trak());
    let list = boxes(metadata);
    let ghost all = boxes_in(metadata@);
    let mut best: Option<(u64, u64)> = None;
    let mut i: usize = 0;
    while i < list.len()
        invariant
            i <= list@.len(),
            k_trak@ == trak(),
            all == box_views(list@),
            best == largest(all, i as int),
        decreases list@.len() - i,
    {
        assert(all[i as int] == (list@[i as int].kind@, list@[i as int].body@));
        if same_bytes(list[i].kind, k_trak.as_slice()) {
            if let Some(size) = read_track_size(list[i].body) {
                best = match best {
                    Some(b) => if shorter_side(size) >= shorter_side(b) {
                        Some(size)
                    } else {
                        Some(b)
                    },
                    None => Some(size),
                };
            }
        }
        i += 1;
    }
    best
}

proof fn lemma_largest_nonzero(boxes: Seq<(Seq<u8>, Seq<u8>)>, n: int)
    requires
        n <= boxes.len(),
    ensures
        largest(boxes, n) matches Some(s) ==> s.0 > 0 && s.1 > 0,
    decreases n,
{
    if n > 0 {
        lemma_largest_nonzero(boxes, n - 1);
        let track = boxes[n - 1].1;
        if let Some(header) = first_box(boxes_in(track), tkhd()) {
            if header.len() > 0 && header[0] <= 1 {
                let at = if header[0] == 0 {
                    76int
                } else {
                    88
                };
                if header.len() >= at + 8 {
                    lemma_big_endian_4(header.subrange(at, at + 4));
                    lemma_big_endian_4(header.subrange(at + 4, at + 8));
                }
            }
        }
    }
}

/// Dimensions that are found are those of a picture: neither side is zero.
pub proof fn law_dimensions_are_positive(metadata: Seq<u8>)
    ensures
        largest(boxes_in(metadata), boxes_in(metadata).len() as int) matches Some(s) ==> s.0 > 0
            && s.1 > 0,
{
    lemma_largest_nonzero(boxes_in(metadata), boxes_in(metadata).len() as int);
}

/// The dimensions of a file are those of one of its video tracks, and no other has a
/// longer shorter side; what is no track, or no video, does not count.
pub proof fn law_dimensions_are_the_largest(boxes: Seq<(Seq<u8>, Seq<u8>)>, n: int, i: int)
    requires
        0 <= i < n <= boxes.len(),
    ensures
        boxes[i].0 == seq![116u8, 114, 97, 107] ==> (track_size(boxes[i].1) matches Some(s)
            ==> largest(boxes, n) is Some && ({
            let best = largest(boxes, n)->0;
            &&& (if s.0 <= s.1 {
                s.0
            } else {
                s.1
            }) <= best.0
            &&& (if s.0 <= s.1 {
                s.0
            } else {
                s.1
            }) <= best.1
        })),
        largest(boxes, n) matches Some(best) ==> exists|k: int|
            0 <= k < n && (#[trigger] boxes[k]).0 == seq![116u8, 114, 97, 107] && track_size(
                boxes[k].1,
            ) == Some(best),
    decreases n,
{
    assert(trak() =~= seq![116u8, 114, 97, 107]);
    if i < n - 1 {
        law_dimensions_are_the_largest(boxes, n - 1, i);
    } else if n > 1 {
        law_dimensions_are_the_largest(boxes, n - 1, 0);
    } else {
        assert(largest(boxes, 0) is None);
    }
    if largest(boxes, n) is Some {
        let best = largest(boxes, n)->0;
        if boxes[n - 1].0 == trak() && track_size(boxes[n - 1].1) == Some(best) {
            assert(boxes[n - 1].0 == seq![116u8, 114, 97, 107]);
        } else {
            let k = choose|k: int|
                0 <= k < n - 1 && (#[trigger] boxes[k]).0 == seq![116u8, 114, 97, 107] && track_size(
                    boxes[k].1,
                ) == Some(best);
            assert(boxes[k].0 == seq![116u8, 114, 97, 107]);
        }
    }
}

// ── Looking for the metadata ─────────────────────────────────────────────

/// How many boxes are looked at.
pub const MAX_BOXES: u32 = 32;

/// How large the metadata may be.
pub const MAX_METADATA: u64 = 4_194_304;

/// How many bytes of a box are read to see what it is.
pub const PROBE: u64 = 16;

/// A search for the metadata of a file.
#[derive(Debug, Clone, PartialEq, Eq)]
pub struct Search {
    /// Where the next box starts.
    pub offset: u64,
    /// How many boxes have been looked at.
    pub seen: u32,
}

/// What a search asks for next.
#[derive(Debug, Clone, Copy, PartialEq, Eq, Structural)]
pub enum SearchStep {
    /// Look at the box there.
    Probe(u64),
    /// Read the metadata: so many bytes from there on.
    Read(u64, u64),
    /// The metadata is empty.
    Empty,
    /// The header is not one of a box.
    BadHeader,
    /// The box ends beyond any file.
    Overflow,
    /// The metadata is too large.
    TooLarge,
    /// The metadata is not among the first boxes.
    NotFound,
}

impl Search {
    /// A search starts with the first box.
    pub fn start() -> (r: Self)
        ensures
            r.offset == 0,
            r.seen == 0,
    {
        Search { offset: 0, seen: 0 }
    }

    /// What follows the first bytes of the box at the current offset.
    pub fn step(&mut self, bytes: &[u8]) -> (r: SearchStep)
        requires
            old(self).seen < MAX_BOXES,
        ensures
            match header_of(bytes@) {
                None => *final(self) == *old(self) && r == SearchStep::BadHeader,
                Some((size, header)) => if old(self).offset + size > u64::MAX {
                    *final(self) == *old(self) && r == SearchStep::Overflow
                } else if kind_of(bytes@) == moov() {
                    *final(self) == *old(self) && r == (if size > MAX_METADATA {
                        SearchStep::TooLarge
                    } else if size == header {
                        SearchStep::Empty
                    } else {
                        SearchStep::Read(
                            (old(self).offset + header) as u64,
                            (size - header) as u64,
                        )
                    })
                } else {
                    &&& final(self).offset == old(self).offset + size
                    &&& final(self).seen == old(self).seen + 1
                    &&& r == (if old(self).seen + 1 == MAX_BOXES {
                        SearchStep::NotFound
                    } else {
                        SearchStep::Probe((old(self).offset + size) as u64)
                    })
                },
            },
    {
        let (size, header) = match box_header(bytes) {
            Some(h) => h,
            None => {
                return SearchStep::BadHeader;
            },
        };
        let next = match self.offset.checked_add(size) {
            Some(n) => n,
            None => {
                return SearchStep::Overflow;
            },
        };
        let k_moov: [u8; 4] = [109, 111, 111, 118];
        assert(k_moov@ =~= moov());
        if same_bytes(slice_subrange(bytes, 4, 8), k_moov.as_slice()) {
            if size > MAX_METADATA {
                return SearchStep::TooLarge;
            }
            if size == header as u64 {
                return SearchStep::Empty;
            }
            return SearchStep::Read(self.offset + header as u64, size - header as u64);
        }
        self.offset = next;
        self.seen = self.seen + 1;
        if self.seen == MAX_BOXES {
            SearchStep::NotFound
        } else {
            SearchStep::Probe(next)
        }
    }
}

/// The last byte of a range, where the range is not empty and fits.
pub fn range_end(start: u64, length: u64) -> (r: Option<u64>)
    ensures
        r == (if start + length <= u64::MAX && start + length >= 1 {
            Some((start + length - 1) as u64)
        } else {
            None
        }),
{
    match start.checked_add(length) {
        Some(end) => end.checked_sub(1),
        None => None,
    }
}

/// Where the range of an answer starts, as its `Content-Range` says.
pub open spec fn range_start(value: Seq<char>) -> Option<nat> {
    let rest = value.skip(6);
    let dash = index_of(rest, '-', 0);
    if !starts_with(value, "bytes "@) || dash >= rest.len() {
        None
    } else {
        parse_unsigned(rest.take(dash), u64::MAX as nat)
    }
}

/// Whether an answer holds the bytes from `start` on: the range asked for, or
/// the whole file where the range starts with it.
pub fn range_ok(status: u16, content_range: &Option<String>, start: u64) -> (r: bool)
    ensures
        r == (if status == 206 {
            content_range matches Some(v) && range_start(v@) == Some(start as nat)
        } else {
            start == 0 && status == 200
        }),
{
    if status != 206 {
        return start == 0 && status == 200;
    }
    match content_range {
        None => false,
        Some(v) => {
            let c = to_chars(v.as_str());
            proof {
                reveal_strlit("bytes ");
            }
            if !begins(c.as_slice(), to_chars("bytes ").as_slice()) {
                return false;
            }
            let rest = copy_range(c.as_slice(), 6, c.len());
            assert(rest@ =~= v@.skip(6));
            let dash = position(rest.as_slice(), '-', 0);
            if dash == rest.len() {
                return false;
            }
            let head = copy_range(rest.as_slice(), 0, dash);
            assert(head@ =~= rest@.take(dash as int));
            match unsigned_at_most(head.as_slice(), u64::MAX) {
                Some(n) => n == start,
                None => false,
            }
        },
    }
}

} // verus!
