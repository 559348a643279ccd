//! The compressed-image ("patch") record format: a fixed header, a
//! per-column offset table, and per-column sparse vertical pixel runs,
//! decoded and composited onto a linear framebuffer.

use vstd::prelude::*;

use crate::codec::le16_signed;
use crate::codec::le32_signed;
use crate::codec::read_i16_le;
use crate::codec::read_i32_le;
use vstd::pervasive::VecAdditionalExecFns;
use vstd::slice::slice_subrange;
use vstd::slice::slice_to_vec;

verus! {

/// A decoded patch: header fields, the column offset table, the size of the
/// header plus table within the raw record, and the retained payload (every
/// byte of the raw record after the header and table).
#[derive(Debug)]
pub struct Patch {
    pub width: i16,
    pub height: i16,
    pub left_offset: i16,
    pub top_offset: i16,
    pub column_offset: Vec<i32>,
    pub hdr_size: usize,
    pub data: Vec<u8>,
}

/// Why a raw record failed to decode.
#[derive(Clone, Copy, Debug, PartialEq, Eq, Structural)]
pub enum DecodeError {
    /// Fewer bytes than the fixed header plus the column offset table need.
    Truncated,
    /// The width field is negative, so no column offset table can follow.
    NegativeWidth,
}

impl Patch {
    /// The structural facts that decoding establishes and the blitter needs.
    pub open spec fn wf(self) -> bool {
        &&& self.width >= 0
        &&& self.column_offset@.len() == self.width as int
        &&& self.hdr_size == 8 + 4 * (self.width as int)
    }

    /// The width field of a raw record.
    pub open spec fn decoded_width(raw: Seq<u8>) -> int {
        le16_signed(raw[0], raw[1])
    }

    /// A raw record holds a complete header and column offset table.
    pub open spec fn decodes(raw: Seq<u8>) -> bool {
        &&& raw.len() >= 8
        &&& Self::decoded_width(raw) >= 0
        &&& raw.len() >= 8 + 4 * Self::decoded_width(raw)
    }

    /// The patch is exactly what decoding `raw` yields.
    pub open spec fn is_decode_of(self, raw: Seq<u8>) -> bool {
        &&& Self::decodes(raw)
        &&& self.width as int == Self::decoded_width(raw)
        &&& self.height as int == le16_signed(raw[2], raw[3])
        &&& self.left_offset as int == le16_signed(raw[4], raw[5])
        &&& self.top_offset as int == le16_signed(raw[6], raw[7])
        &&& self.column_offset@.len() == self.width as int
        &&& forall|j: int|
            0 <= j < self.width as int ==> self.column_offset@[j] as int == le32_signed(
                raw[8 + 4 * j],
                raw[9 + 4 * j],
                raw[10 + 4 * j],
                raw[11 + 4 * j],
            )
        &&& self.hdr_size == 8 + 4 * (self.width as int)
        &&& self.data@ == raw.subrange(self.hdr_size as int, raw.len() as int)
    }

    /// Decode the header and column offset table of a raw record and retain
    /// the rest as the payload. Truncated or malformed records are rejected;
    /// nothing is read past the end of `raw`.
    pub fn new(raw: &[u8]) -> (r: Result<Self, DecodeError>)
        ensures
            match r {
                Ok(p) => p.is_decode_of(raw@) && p.wf(),
                Err(DecodeError::Truncated) => raw@.len() < 8 || (Self::decoded_width(raw@) >= 0
                    && raw@.len() < 8 + 4 * Self::decoded_width(raw@)),
                Err(DecodeError::NegativeWidth) => raw@.len() >= 8 && Self::decoded_width(raw@)
                    < 0,
            },
            r is Ok <==> Self::decodes(raw@),
    {
        if raw.len() < 8 {
            return Err(DecodeError::Truncated);
        }
        let width = read_i16_le(slice_subrange(raw, 0, 2));
        let height = read_i16_le(slice_subrange(raw, 2, 4));
        let left_offset = read_i16_le(slice_subrange(raw, 4, 6));
        let top_offset = read_i16_le(slice_subrange(raw, 6, 8));
        if width < 0 {
            return Err(DecodeError::NegativeWidth);
        }
        let w = width as usize;
        let hdr_size = 8 + 4 * w;
        if raw.len() < hdr_size {
            return Err(DecodeError::Truncated);
        }
        let mut column_offset: Vec<i32> = Vec::new();
        for j in 0..w
            invariant
                w == width as int,
                width >= 0,
                hdr_size == 8 + 4 * w,
                raw@.len() >= hdr_size,
                column_offset@.len() == j,
                forall|k: int|
                    0 <= k < j ==> column_offset@[k] as int == le32_signed(
                        raw@[8 + 4 * k],
                        raw@[9 + 4 * k],
                        raw@[10 + 4 * k],
                        raw@[11 + 4 * k],
                    ),
        {
            let off = read_i32_le(slice_subrange(raw, 8 + 4 * j, 12 + 4 * j));
            column_offset.push(off);
        }
        let data = slice_to_vec(slice_subrange(raw, hdr_size, raw.len()));
        Ok(
            Patch {
                width,
                height,
                left_offset,
                top_offset,
                column_offset,
                hdr_size,
                data,
            },
        )
    }
}

/// One vertical pixel run of a column: its start row within the column and
/// its opaque pixel bytes.
pub ghost struct Post {
    pub top_delta: u8,
    pub pixels: Seq<u8>,
}

/// Parse the posts of one column, starting at byte `pos` of the payload.
/// Each post is `{ top_delta, length, pixels[length], pad }`; a `top_delta`
/// of 0xFF ends the column. `None` means the run data is truncated or runs
/// out of the payload.
pub open spec fn parse_posts(data: Seq<u8>, pos: int) -> Option<Seq<Post>>
    decreases data.len() - pos,
{
    if pos < 0 || pos >= data.len() {
        None
    } else if data[pos] == 0xff {
        Some(Seq::empty())
    } else if pos + 2 > data.len() || pos + 3 + data[pos + 1] > data.len() {
        None
    } else {
        match parse_posts(data, pos + 3 + data[pos + 1]) {
            None => None,
            Some(rest) => Some(
                seq![
                    Post {
                        top_delta: data[pos],
                        pixels: data.subrange(pos + 2, pos + 2 + data[pos + 1]),
                    },
                ] + rest,
            ),
        }
    }
}

/// The framebuffer after the first `n` pixels of one post are written:
/// pixel `i` goes to cell `(y + i) * w + x`. The in-range guard only keeps
/// the function total; under `patch_fits` every written cell is in range.
pub open spec fn paint_pixels(fb: Seq<u8>, w: int, x: int, y: int, pix: Seq<u8>, n: int) -> Seq<u8>
    decreases n,
{
    if n <= 0 {
        fb
    } else {
        let prev = paint_pixels(fb, w, x, y, pix, n - 1);
        let cell = (y + n - 1) * w + x;
        if 0 <= cell < prev.len() {
            prev.update(cell, pix[n - 1])
        } else {
            prev
        }
    }
}

/// The framebuffer after the first `n` posts of one column are written,
/// the column anchored at `(x, y)`.
pub open spec fn paint_posts(fb: Seq<u8>, w: int, x: int, y: int, posts: Seq<Post>, n: int) -> Seq<
    u8,
>
    decreases n,
{
    if n <= 0 {
        fb
    } else {
        let p = posts[n - 1];
        paint_pixels(
            paint_posts(fb, w, x, y, posts, n - 1),
            w,
            x,
            y + p.top_delta,
            p.pixels,
            p.pixels.len() as int,
        )
    }
}

/// The posts of column `c` of a patch, read from the payload at the column's
/// table offset adjusted by the header size.
pub open spec fn column_posts(p: Patch, c: int) -> Option<Seq<Post>> {
    parse_posts(p.data@, p.column_offset@[c] - p.hdr_size)
}

/// The framebuffer after the first `n` columns of a patch are written, the
/// patch's adjusted origin at `(ox, oy)`.
pub open spec fn paint_columns(fb: Seq<u8>, w: int, ox: int, oy: int, p: Patch, n: int) -> Seq<u8>
    decreases n,
{
    if n <= 0 {
        fb
    } else {
        let posts = column_posts(p, n - 1).unwrap();
        paint_posts(
            paint_columns(fb, w, ox, oy, p, n - 1),
            w,
            ox + n - 1,
            oy,
            posts,
            posts.len() as int,
        )
    }
}

/// The framebuffer after a whole patch is blitted at anchor `(x, y)`: the
/// write origin is the anchor shifted by the patch's offset fields.
pub open spec fn blit_result(fb: Seq<u8>, w: int, x: int, y: int, p: Patch) -> Seq<u8> {
    paint_columns(fb, w, x - p.left_offset, y - p.top_offset, p, p.width as int)
}

/// The framebuffer cell that pixel `i` of a post starting at row `y + top`
/// in column `x` is written to.
pub open spec fn post_cell(w: int, x: int, y: int, top: int, i: int) -> int {
    (y + top + i) * w + x
}

/// Every cell that one post would write lies inside the framebuffer.
pub open spec fn post_fits(fb_len: int, w: int, x: int, y: int, post: Post) -> bool {
    forall|i: int|
        0 <= i < post.pixels.len() ==> 0 <= #[trigger] post_cell(
            w,
            x,
            y,
            post.top_delta as int,
            i,
        ) < fb_len
}

/// Every cell that a column's posts would write lies inside the framebuffer.
pub open spec fn posts_fit(fb_len: int, w: int, x: int, y: int, posts: Seq<Post>) -> bool {
    forall|k: int| 0 <= k < posts.len() ==> post_fits(fb_len, w, x, y, #[trigger] posts[k])
}

/// The caller's obligation for a clipping-free blit: the patch is
/// well-formed, the adjusted origin is not negative, every column's run data
/// parses, and every written cell lies inside the framebuffer.
pub open spec fn patch_fits(p: Patch, fb_len: int, w: int, x: int, y: int) -> bool {
    let ox = x - p.left_offset;
    let oy = y - p.top_offset;
    &&& p.wf()
    &&& ox >= 0
    &&& oy >= 0
    &&& forall|c: int| 0 <= c < p.width as int ==> (#[trigger] column_posts(p, c)) is Some
    &&& forall|c: int|
        0 <= c < p.width as int ==> posts_fit(fb_len, w, ox + c, oy, (#[trigger] column_posts(
            p,
            c,
        )).unwrap())
}

proof fn lemma_paint_pixels_len(fb: Seq<u8>, w: int, x: int, y: int, pix: Seq<u8>, n: int)
    ensures
        paint_pixels(fb, w, x, y, pix, n).len() == fb.len(),
    decreases n,
{
    if n > 0 {
        lemma_paint_pixels_len(fb, w, x, y, pix, n - 1);
    }
}

proof fn lemma_paint_posts_len(fb: Seq<u8>, w: int, x: int, y: int, posts: Seq<Post>, n: int)
    ensures
        paint_posts(fb, w, x, y, posts, n).len() == fb.len(),
    decreases n,
{
    if n > 0 {
        lemma_paint_posts_len(fb, w, x, y, posts, n - 1);
        let p = posts[n - 1];
        lemma_paint_pixels_len(
            paint_posts(fb, w, x, y, posts, n - 1),
            w,
            x,
            y + p.top_delta,
            p.pixels,
            p.pixels.len() as int,
        );
    }
}

proof fn lemma_paint_columns_len(fb: Seq<u8>, w: int, ox: int, oy: int, p: Patch, n: int)
    ensures
        paint_columns(fb, w, ox, oy, p, n).len() == fb.len(),
    decreases n,
{
    if n > 0 {
        lemma_paint_columns_len(fb, w, ox, oy, p, n - 1);
        let posts = column_posts(p, n - 1).unwrap();
        lemma_paint_posts_len(
            paint_columns(fb, w, ox, oy, p, n - 1),
            w,
            ox + n - 1,
            oy,
            posts,
            posts.len() as int,
        );
    }
}

/// Does some pixel of `post`, the post anchored at column `x` and base row
/// `y`, land on cell `j`?
pub open spec fn post_writes_cell(w: int, x: int, y: int, post: Post, j: int) -> bool {
    exists|i: int|
        0 <= i < post.pixels.len() && j == #[trigger] post_cell(
            w,
            x,
            y,
            post.top_delta as int,
            i,
        )
}

/// Does some pixel of the patch's column `c` land on cell `j`?
pub open spec fn column_writes_cell(p: Patch, w: int, ox: int, oy: int, c: int, j: int) -> bool {
    exists|k: int|
        0 <= k < column_posts(p, c).unwrap().len() && post_writes_cell(
            w,
            ox + c,
            oy,
            #[trigger] column_posts(p, c).unwrap()[k],
            j,
        )
}

/// Does any pixel of the patch land on cell `j`, the patch's adjusted
/// origin at `(ox, oy)`?
pub open spec fn cell_written(p: Patch, w: int, ox: int, oy: int, j: int) -> bool {
    exists|c: int| 0 <= c < p.width as int && #[trigger] column_writes_cell(p, w, ox, oy, c, j)
}

proof fn lemma_paint_pixels_frame(
    fb: Seq<u8>,
    w: int,
    x: int,
    y: int,
    post: Post,
    n: int,
    j: int,
)
    requires
        0 <= j < fb.len(),
        n <= post.pixels.len(),
        !post_writes_cell(w, x, y, post, j),
    ensures
        paint_pixels(fb, w, x, y + post.top_delta, post.pixels, n)[j] == fb[j],
    decreases n,
{
    if n > 0 {
        lemma_paint_pixels_frame(fb, w, x, y, post, n - 1, j);
        lemma_paint_pixels_len(fb, w, x, y + post.top_delta, post.pixels, n - 1);
        if j == (y + post.top_delta + n - 1) * w + x {
            assert(j == post_cell(w, x, y, post.top_delta as int, n - 1));
            assert(false);
        }
    }
}

proof fn lemma_paint_posts_frame(
    fb: Seq<u8>,
    w: int,
    x: int,
    y: int,
    posts: Seq<Post>,
    n: int,
    j: int,
)
    requires
        0 <= j < fb.len(),
        forall|k: int| 0 <= k < n ==> !(#[trigger] post_writes_cell(w, x, y, posts[k], j)),
    ensures
        paint_posts(fb, w, x, y, posts, n)[j] == fb[j],
    decreases n,
{
    if n > 0 {
        lemma_paint_posts_frame(fb, w, x, y, posts, n - 1, j);
        let prev = paint_posts(fb, w, x, y, posts, n - 1);
        lemma_paint_posts_len(fb, w, x, y, posts, n - 1);
        assert(!post_writes_cell(w, x, y, posts[n - 1], j));
        lemma_paint_pixels_frame(prev, w, x, y, posts[n - 1], posts[n - 1].pixels.len() as int, j);
    }
}

proof fn lemma_paint_columns_frame(
    fb: Seq<u8>,
    w: int,
    ox: int,
    oy: int,
    p: Patch,
    n: int,
    j: int,
)
    requires
        0 <= j < fb.len(),
        forall|c: int| 0 <= c < n ==> !(#[trigger] column_writes_cell(p, w, ox, oy, c, j)),
    ensures
        paint_columns(fb, w, ox, oy, p, n)[j] == fb[j],
    decreases n,
{
    if n > 0 {
        lemma_paint_columns_frame(fb, w, ox, oy, p, n - 1, j);
        let prev = paint_columns(fb, w, ox, oy, p, n - 1);
        lemma_paint_columns_len(fb, w, ox, oy, p, n - 1);
        let posts = column_posts(p, n - 1).unwrap();
        assert(!column_writes_cell(p, w, ox, oy, n - 1, j));
        assert forall|k: int| 0 <= k < posts.len() implies !(#[trigger] post_writes_cell(
            w,
            ox + n - 1,
            oy,
            posts[k],
            j,
        )) by {
            if post_writes_cell(w, ox + n - 1, oy, posts[k], j) {
                assert(column_posts(p, n - 1).unwrap()[k] == posts[k]);
                assert(column_writes_cell(p, w, ox, oy, n - 1, j));
            }
        }
        lemma_paint_posts_frame(prev, w, ox + n - 1, oy, posts, posts.len() as int, j);
    }
}

/// Blitting touches nothing else: a framebuffer cell that no pixel of the
/// patch lands on holds exactly its old byte after the blit.
pub proof fn lemma_blit_frame(fb: Seq<u8>, w: int, x: int, y: int, p: Patch, j: int)
    requires
        patch_fits(p, fb.len() as int, w, x, y),
        0 <= j < fb.len(),
        !cell_written(p, w, x - p.left_offset, y - p.top_offset, j),
    ensures
        blit_result(fb, w, x, y, p)[j] == fb[j],
{
    let ox = x - p.left_offset;
    let oy = y - p.top_offset;
    assert forall|c: int| 0 <= c < p.width as int implies !(#[trigger] column_writes_cell(
        p,
        w,
        ox,
        oy,
        c,
        j,
    )) by {
        if column_writes_cell(p, w, ox, oy, c, j) {
            assert(cell_written(p, w, ox, oy, j));
        }
    }
    lemma_paint_columns_frame(fb, w, ox, oy, p, p.width as int, j);
}

/// Painting the first `n` posts reads only the first `n` entries of the
/// post sequence.
proof fn lemma_paint_posts_agrees(
    fb: Seq<u8>,
    w: int,
    x: int,
    y: int,
    s: Seq<Post>,
    t: Seq<Post>,
    n: int,
)
    requires
        forall|k: int| 0 <= k < n ==> s[k] == t[k],
    ensures
        paint_posts(fb, w, x, y, s, n) == paint_posts(fb, w, x, y, t, n),
    decreases n,
{
    if n > 0 {
        lemma_paint_posts_agrees(fb, w, x, y, s, t, n - 1);
    }
}

/// Walk one column's run data and report whether it parses and every cell
/// it would write lies inside a framebuffer of `fb_len` cells.
#[verifier::loop_isolation(false)]
fn check_column(data: &Vec<u8>, start: usize, fb_len: usize, w: usize, x: usize, y: usize) -> (b:
    bool)
    requires
        x <= 0x1000000000000,
        y <= 0x1000000000000,
    ensures
        b == ({
            let posts = parse_posts(data@, start as int);
            &&& posts is Some
            &&& posts_fit(fb_len as int, w as int, x as int, y as int, posts.unwrap())
        }),
{
    if start >= data.len() {
        return false;
    }
    let mut pos: usize = start;
    let ghost mut acc: Seq<Post> = Seq::empty();
    loop
        invariant
            pos <= data@.len(),
            parse_posts(data@, start as int) is Some <==> parse_posts(data@, pos as int) is Some,
            parse_posts(data@, pos as int) is Some ==> parse_posts(data@, start as int).unwrap()
                == acc + parse_posts(data@, pos as int).unwrap(),
            posts_fit(fb_len as int, w as int, x as int, y as int, acc),
        decreases data@.len() - pos,
    {
        if pos >= data.len() {
            return false;
        }
        let top = data[pos];
        if top == 0xff {
            proof {
                assert(acc + Seq::<Post>::empty() =~= acc);
            }
            return true;
        }
        if pos + 1 >= data.len() {
            return false;
        }
        let plen = data[pos + 1] as usize;
        let rem = data.len() - pos;
        if plen + 3 > rem {
            return false;
        }
        let ghost post = Post {
            top_delta: top,
            pixels: data@.subrange(pos + 2, pos + 2 + plen),
        };
        let mut i: usize = 0;
        while i < plen
            invariant
                i <= plen,
                forall|ii: int|
                    0 <= ii < i ==> 0 <= #[trigger] post_cell(
                        w as int,
                        x as int,
                        y as int,
                        top as int,
                        ii,
                    ) < fb_len,
            decreases plen - i,
        {
            let row: u128 = y as u128 + top as u128 + i as u128;
            proof {
                assert(row * (w as u128) <= 0x1000000000200u128 * 0xffffffffffffffffu128)
                    by (nonlinear_arith)
                    requires
                        row <= 0x1000000000200u128,
                        w as u128 <= 0xffffffffffffffffu128,
                ;
            }
            let cell: u128 = row * (w as u128) + x as u128;
            if cell >= fb_len as u128 {
                proof {
                    assert(post.top_delta == top);
                    assert(post.pixels.len() == plen as int);
                    assert(post_cell(w as int, x as int, y as int, post.top_delta as int, i as int)
                        == cell);
                    assert(post_cell(w as int, x as int, y as int, post.top_delta as int, i as int)
                        >= fb_len as int);
                    assert(!post_fits(fb_len as int, w as int, x as int, y as int, post));
                    let nxt = pos + 3 + plen;
                    if parse_posts(data@, nxt as int) is Some {
                        let rest = parse_posts(data@, nxt as int).unwrap();
                        assert(parse_posts(data@, pos as int) == Some(seq![post] + rest));
                        let full = parse_posts(data@, start as int).unwrap();
                        assert(full[acc.len() as int] == post);
                        assert(!posts_fit(fb_len as int, w as int, x as int, y as int, full));
                    }
                }
                return false;
            }
            i += 1;
        }
        proof {
            let nxt = pos + 3 + plen;
            if parse_posts(data@, nxt as int) is Some {
                let rest = parse_posts(data@, nxt as int).unwrap();
                assert(parse_posts(data@, pos as int) == Some(seq![post] + rest));
                assert(acc + (seq![post] + rest) =~= acc.push(post) + rest);
            }
            acc = acc.push(post);
        }
        pos = pos + 3 + plen;
    }
}

/// Report whether a clipping-free blit of `patch` at anchor `(x, y)` onto a
/// framebuffer of `fb_len` cells and row stride `fb_width` stays entirely in
/// bounds; this is exactly the obligation `draw_patch` places on its caller.
#[verifier::loop_isolation(false)]
pub fn patch_fits_check(patch: &Patch, fb_len: usize, fb_width: usize, x: i32, y: i32) -> (b: bool)
    ensures
        b == patch_fits(*patch, fb_len as int, fb_width as int, x as int, y as int),
{
    if patch.width < 0 {
        return false;
    }
    if patch.column_offset.len() != patch.width as usize {
        return false;
    }
    if patch.hdr_size != 8 + 4 * (patch.width as usize) {
        return false;
    }
    let ox_i: i64 = x as i64 - patch.left_offset as i64;
    let oy_i: i64 = y as i64 - patch.top_offset as i64;
    if ox_i < 0 || oy_i < 0 {
        return false;
    }
    let ox: usize = ox_i as usize;
    let oy: usize = oy_i as usize;
    let w: usize = patch.width as usize;
    for c in 0..w
        invariant
            forall|cc: int|
                0 <= cc < c ==> (#[trigger] column_posts(*patch, cc)) is Some && posts_fit(
                    fb_len as int,
                    fb_width as int,
                    ox + cc,
                    oy as int,
                    column_posts(*patch, cc).unwrap(),
                ),
    {
        let off: i32 = patch.column_offset[c];
        let start_i: i64 = off as i64 - patch.hdr_size as i64;
        if start_i < 0 {
            proof {
                assert(column_posts(*patch, c as int) is None);
            }
            return false;
        }
        let start: usize = start_i as usize;
        let column_ok = check_column(&patch.data, start, fb_len, fb_width, ox + c, oy);
        proof {
            assert(column_posts(*patch, c as int) == parse_posts(patch.data@, start as int));
        }
        if !column_ok {
            return false;
        }
    }
    true
}

/// Why a checked blit was refused.
#[derive(Clone, Copy, Debug, PartialEq, Eq, Structural)]
pub enum BlitError {
    /// A column's run data does not parse, the adjusted origin is negative,
    /// or some pixel would fall outside the framebuffer.
    DoesNotFit,
}

/// Composite one column's posts onto the framebuffer, the column anchored
/// at cell `(x, y)` with row stride `w`.
#[verifier::loop_isolation(false)]
fn paint_column(fb: &mut Vec<u8>, data: &Vec<u8>, start: usize, w: usize, x: usize, y: usize)
    requires
        x <= 0x80010000,
        y <= 0x80010000,
        parse_posts(data@, start as int) is Some,
        posts_fit(
            old(fb)@.len() as int,
            w as int,
            x as int,
            y as int,
            parse_posts(data@, start as int).unwrap(),
        ),
    ensures
        final(fb)@ == ({
            let posts = parse_posts(data@, start as int).unwrap();
            paint_posts(old(fb)@, w as int, x as int, y as int, posts, posts.len() as int)
        }),
        final(fb)@.len() == old(fb)@.len(),
{
    let ghost full = parse_posts(data@, start as int).unwrap();
    let mut pos: usize = start;
    let ghost mut acc: Seq<Post> = Seq::empty();
    proof {
        assert(acc + full =~= full);
        assert(data@.len() == data.len());
        assert(fb@.len() == fb.len());
    }
    loop
        invariant
            pos <= data@.len(),
            data@.len() <= usize::MAX,
            fb@.len() == old(fb)@.len(),
            parse_posts(data@, pos as int) is Some,
            full == acc + parse_posts(data@, pos as int).unwrap(),
            fb@ == paint_posts(old(fb)@, w as int, x as int, y as int, acc, acc.len() as int),
        decreases data@.len() - pos,
    {
        proof {
            assert(pos < data@.len());
        }
        let top = data[pos];
        if top == 0xff {
            proof {
                assert(parse_posts(data@, pos as int) == Some(Seq::<Post>::empty()));
                assert(acc + Seq::<Post>::empty() =~= acc);
            }
            return ;
        }
        proof {
            assert(pos + 2 <= data@.len());
        }
        let plen = data[pos + 1] as usize;
        let ghost post = Post {
            top_delta: top,
            pixels: data@.subrange(pos + 2, pos + 2 + plen),
        };
        let ghost rest = parse_posts(data@, pos + 3 + plen);
        proof {
            assert(rest is Some && parse_posts(data@, pos as int) == Some(
                seq![post] + rest.unwrap(),
            ));
            assert(full[acc.len() as int] == post);
        }
        let ghost fb_at_post = fb@;
        let mut i: usize = 0;
        while i < plen
            invariant
                i <= plen,
                fb@.len() == old(fb)@.len(),
                fb@ == paint_pixels(
                    fb_at_post,
                    w as int,
                    x as int,
                    y + top as int,
                    post.pixels,
                    i as int,
                ),
            decreases plen - i,
        {
            proof {
                assert(0 <= post_cell(w as int, x as int, y as int, post.top_delta as int, i as int)
                    < fb@.len());
                assert((y + top + i) * w >= 0) by (nonlinear_arith)
                    requires
                        y as int >= 0 && top as int >= 0 && i as int >= 0 && w as int >= 0,
                ;
                assert((y as int + top as int + i as int) * (w as int) + x as int == post_cell(
                    w as int,
                    x as int,
                    y as int,
                    post.top_delta as int,
                    i as int,
                ));
            }
            let row: usize = y + top as usize + i;
            let cell: usize = row * w + x;
            let px = data[pos + 2 + i];
            fb.set(cell, px);
            i += 1;
        }
        proof {
            lemma_paint_posts_agrees(
                old(fb)@,
                w as int,
                x as int,
                y as int,
                acc,
                acc.push(post),
                acc.len() as int,
            );
            assert(acc + (seq![post] + rest.unwrap()) =~= acc.push(post) + rest.unwrap());
            acc = acc.push(post);
        }
        pos = pos + 3 + plen;
    }
}

/// Blit a patch onto the framebuffer at anchor `(x, y)`: the write origin is
/// the anchor shifted left and up by the patch's offset fields, and each
/// column's posts are written with row stride `fb_width`. No clipping is
/// performed; the caller must guarantee `patch_fits`.
#[verifier::loop_isolation(false)]
pub fn draw_patch(fb: &mut Vec<u8>, fb_width: usize, x: i32, y: i32, patch: &Patch)
    requires
        patch_fits(*patch, old(fb)@.len() as int, fb_width as int, x as int, y as int),
    ensures
        final(fb)@ == blit_result(old(fb)@, fb_width as int, x as int, y as int, *patch),
        final(fb)@.len() == old(fb)@.len(),
{
    let ox: usize = (x as i64 - patch.left_offset as i64) as usize;
    let oy: usize = (y as i64 - patch.top_offset as i64) as usize;
    let w: usize = patch.width as usize;
    for c in 0..w
        invariant
            fb@.len() == old(fb)@.len(),
            fb@ == paint_columns(
                old(fb)@,
                fb_width as int,
                ox as int,
                oy as int,
                *patch,
                c as int,
            ),
    {
        let off: i32 = patch.column_offset[c];
        proof {
            assert(column_posts(*patch, c as int) is Some);
            assert(patch.column_offset@[c as int] - patch.hdr_size >= 0);
        }
        let start: usize = (off as i64 - patch.hdr_size as i64) as usize;
        proof {
            assert(column_posts(*patch, c as int) == parse_posts(patch.data@, start as int));
        }
        paint_column(fb, &patch.data, start, fb_width, ox + c, oy);
    }
}

/// Blit a patch after checking that every write stays inside the
/// framebuffer; on refusal the framebuffer is left unchanged.
pub fn try_draw_patch(fb: &mut Vec<u8>, fb_width: usize, x: i32, y: i32, patch: &Patch) -> (r:
    Result<(), BlitError>)
    ensures
        r is Ok <==> patch_fits(*patch, old(fb)@.len() as int, fb_width as int, x as int, y as int),
        r is Ok ==> final(fb)@ == blit_result(
            old(fb)@,
            fb_width as int,
            x as int,
            y as int,
            *patch,
        ),
        r is Err ==> final(fb)@ == old(fb)@,
        final(fb)@.len() == old(fb)@.len(),
{
    if patch_fits_check(patch, fb.len(), fb_width, x, y) {
        draw_patch(fb, fb_width, x, y, patch);
        Ok(())
    } else {
        Err(BlitError::DoesNotFit)
    }
}

} // verus!

