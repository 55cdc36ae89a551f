pub mod tiled;

use vstd::prelude::*;

verus! {

/// The texture that a pending batch of quads is drawn with.
#[derive(Debug)]
pub enum TextureSource {
    /// The plain white texture used for untextured (coloured) quads.
    White,
    /// The texture of the sprite sheet of that name.
    Sheet(String),
}

/// The name under which untextured quads are batched.
pub open spec fn white_texture_name() -> Seq<char> {
    "white_texture"@
}

/// A pending batch is drawn when it holds vertices and either the next quad
/// needs another texture or drawing is forced.
pub open spec fn must_flush(batch_len: nat, last_sheet: Seq<char>, current_sheet: Seq<char>, force: bool) -> bool {
    batch_len > 0 && (last_sheet != current_sheet || force)
}

/// Decides whether the pending batch, batched for `last_sheet`, has to be
/// drawn before a quad for `current_sheet` is added (or at the end of the
/// frame, with `force`), and with which texture.
pub fn flush_source(batch_len: usize, last_sheet: &String, current_sheet: &str, force: bool) -> (r: Option<TextureSource>)
    ensures
        match r {
            None => !must_flush(batch_len as nat, last_sheet@, current_sheet@, force),
            Some(TextureSource::White) => must_flush(batch_len as nat, last_sheet@, current_sheet@, force)
                && last_sheet@ == white_texture_name(),
            Some(TextureSource::Sheet(name)) => must_flush(batch_len as nat, last_sheet@, current_sheet@, force)
                && last_sheet@ != white_texture_name() && name@ == last_sheet@,
        },
{
    let current = String::from_str(current_sheet);
    if batch_len > 0 && (*last_sheet != current || force) {
        let white = String::from_str("white_texture");
        if *last_sheet == white {
            Some(TextureSource::White)
        } else {
            Some(TextureSource::Sheet(last_sheet.clone()))
        }
    } else {
        None
    }
}

/// The quads waiting to be drawn: how many vertices they hold, the sheet
/// whose texture the next quads are batched for, and (for the proofs) the
/// sheet each pending quad was added for.
pub struct SpriteBatch {
    pub last_sheet: String,
    pub vertex_count: usize,
    pub pending: Ghost<Seq<Seq<char>>>,
}

impl SpriteBatch {
    /// The pending vertices make whole quads, one per recorded sheet, and
    /// every pending quad was added for the current sheet.
    pub open spec fn wf(&self) -> bool {
        &&& self.vertex_count == 4 * self.pending@.len()
        &&& forall|i: int| 0 <= i < self.pending@.len() ==> #[trigger] self.pending@[i] == self.last_sheet@
    }

    /// Nothing pending, batched for no sheet.
    pub fn new() -> (b: SpriteBatch)
        ensures
            b.last_sheet@ == Seq::<char>::empty(),
            b.vertex_count == 0,
            b.wf(),
    {
        SpriteBatch { last_sheet: String::new(), vertex_count: 0, pending: Ghost(Seq::empty()) }
    }

    /// At the end of a frame (`force`) or before quads for `current_sheet`:
    /// says whether the pending quads have to be drawn now and with which
    /// texture; when they are, nothing is pending afterwards.
    pub fn flush(&mut self, current_sheet: &str, force: bool) -> (r: Option<TextureSource>)
        ensures
            match r {
                None => !must_flush(old(self).vertex_count as nat, old(self).last_sheet@, current_sheet@, force),
                Some(TextureSource::White) => must_flush(
                    old(self).vertex_count as nat,
                    old(self).last_sheet@,
                    current_sheet@,
                    force,
                ) && old(self).last_sheet@ == white_texture_name(),
                Some(TextureSource::Sheet(name)) => must_flush(
                    old(self).vertex_count as nat,
                    old(self).last_sheet@,
                    current_sheet@,
                    force,
                ) && old(self).last_sheet@ != white_texture_name() && name@ == old(self).last_sheet@,
            },
            final(self).vertex_count == if r is Some { 0 } else { old(self).vertex_count },
            final(self).pending@ == if r is Some { Seq::empty() } else { old(self).pending@ },
            final(self).last_sheet@ == old(self).last_sheet@,
            old(self).wf() ==> final(self).wf(),
    {
        let r = flush_source(self.vertex_count, &self.last_sheet, current_sheet, force);
        if r.is_some() {
            self.vertex_count = 0;
            self.pending = Ghost(Seq::empty());
        }
        r
    }

    /// Before quads for `sheet` are added: draws the pending quads first when
    /// they were batched for another sheet (as `flush` says, unforced), then
    /// batches for `sheet`.
    pub fn prepare_for(&mut self, sheet: String) -> (r: Option<TextureSource>)
        ensures
            match r {
                None => !must_flush(old(self).vertex_count as nat, old(self).last_sheet@, sheet@, false),
                Some(TextureSource::White) => must_flush(
                    old(self).vertex_count as nat,
                    old(self).last_sheet@,
                    sheet@,
                    false,
                ) && old(self).last_sheet@ == white_texture_name(),
                Some(TextureSource::Sheet(name)) => must_flush(
                    old(self).vertex_count as nat,
                    old(self).last_sheet@,
                    sheet@,
                    false,
                ) && old(self).last_sheet@ != white_texture_name() && name@ == old(self).last_sheet@,
            },
            final(self).vertex_count == if r is Some { 0 } else { old(self).vertex_count },
            final(self).pending@ == if r is Some { Seq::empty() } else { old(self).pending@ },
            final(self).last_sheet@ == sheet@,
            old(self).wf() ==> final(self).wf(),
    {
        let r = self.flush(sheet.as_str(), false);
        self.last_sheet = sheet;
        r
    }

    /// One more quad (four vertices), for the current sheet, is pending.
    pub fn add_quad(&mut self)
        requires
            old(self).vertex_count + 4 <= usize::MAX,
        ensures
            final(self).vertex_count == old(self).vertex_count + 4,
            final(self).pending@ == old(self).pending@.push(old(self).last_sheet@),
            final(self).last_sheet@ == old(self).last_sheet@,
            old(self).wf() ==> final(self).wf(),
    {
        self.vertex_count = self.vertex_count + 4;
        self.pending = Ghost(self.pending@.push(self.last_sheet@));
    }
}

/// The vertex indices of `quads` quads, two triangles per quad: quad `k`
/// takes its four vertices from `4k` on and is drawn as (0,1,2) and (2,3,0).
pub open spec fn quad_index_seq(quads: nat) -> Seq<u32>
    decreases quads,
{
    if quads == 0 {
        Seq::empty()
    } else {
        let b = (4 * (quads - 1)) as u32;
        quad_index_seq((quads - 1) as nat) + seq![b, (b + 1) as u32, (b + 2) as u32, (b + 2) as u32, (b + 3) as u32, b]
    }
}

/// The number of quads that `vertex_count` vertices are cut into, four at a
/// time, the last group possibly short.
pub open spec fn quad_count(vertex_count: nat) -> nat {
    ((vertex_count + 3) / 4) as nat
}

/// The index list that draws a batch of `vertex_count` vertices as quads.
pub fn quad_indices(vertex_count: usize) -> (r: Vec<u32>)
    requires
        4 * quad_count(vertex_count as nat) <= u32::MAX,
    ensures
        r@ == quad_index_seq(quad_count(vertex_count as nat)),
{
    let quads = vertex_count / 4 + if vertex_count % 4 == 0 { 0 } else { 1 };
    assert(quads == quad_count(vertex_count as nat));
    let mut data: Vec<u32> = Vec::new();
    let mut offset: u32 = 0;
    for k in 0..quads
        invariant
            quads == quad_count(vertex_count as nat),
            4 * quads <= u32::MAX,
            offset == 4 * k,
            data@ == quad_index_seq(k as nat),
    {
        data.push(offset);
        data.push(1 + offset);
        data.push(2 + offset);
        data.push(2 + offset);
        data.push(3 + offset);
        data.push(offset);
        proof {
            assert(data@ =~= quad_index_seq((k + 1) as nat));
        }
        offset = offset + 4;
    }
    data
}

/// A batch of `q` quads has six indices per quad, and each quad's indices
/// point at its own four vertices.
pub proof fn lemma_quad_indices(q: nat)
    requires
        4 * q <= u32::MAX,
    ensures
        quad_index_seq(q).len() == 6 * q,
        forall|k: int, j: int|
            0 <= k < q && 0 <= j < 6 ==> 4 * k <= #[trigger] quad_index_seq(q)[6 * k + j] < 4 * k + 4,
    decreases q,
{
    if q > 0 {
        let p = (q - 1) as nat;
        lemma_quad_indices(p);
        let prev = quad_index_seq(p);
        let b = (4 * p) as u32;
        let tail = seq![b, (b + 1) as u32, (b + 2) as u32, (b + 2) as u32, (b + 3) as u32, b];
        assert forall|k: int, j: int| 0 <= k < q && 0 <= j < 6 implies 4 * k <= #[trigger] quad_index_seq(q)[6 * k + j] < 4 * k + 4 by {
            if k < p {
                assert(6 * k + j < 6 * p) by (nonlinear_arith)
                    requires k < p, 0 <= j < 6;
                assert(quad_index_seq(q)[6 * k + j] == prev[6 * k + j]);
            } else {
                assert(quad_index_seq(q)[6 * k + j] == tail[j]);
            }
        }
    }
}

} // verus!
