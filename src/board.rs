use vstd::prelude::*;

verus! {

pub const BOARD_WIDTH: u32 = 80;

pub const BOARD_HEIGHT: u32 = 80;

/// Number of cells on the canvas.
pub const TOTAL_NUM_PIXELS: u32 = 6400;

/// A claim on one cell, with the colour to paint it.
#[derive(Clone, Copy, PartialEq, Eq, Structural, Debug)]
pub struct SetPixelRequest {
    pub x: u8,
    pub y: u8,
    pub color: u32,
}

pub open spec fn valid_pixel(p: SetPixelRequest) -> bool {
    p.x < BOARD_WIDTH && p.y < BOARD_HEIGHT
}

/// Position of the cell that `p` claims in the row-major cell sequence.
pub open spec fn pixel_cell(p: SetPixelRequest) -> int {
    p.y * BOARD_WIDTH + p.x
}

/// Number of cells of `owners` held by account `i`.
pub open spec fn count_owned(owners: Seq<u32>, i: int) -> nat
    decreases owners.len(),
{
    if owners.len() == 0 {
        0
    } else {
        count_owned(owners.drop_last(), i) + if owners.last() == i {
            1nat
        } else {
            0nat
        }
    }
}

/// The canvas: for each cell, the index of the account that owns it and its colour.
pub struct PixelBoard {
    pub owners: Vec<u32>,
    pub colors: Vec<u32>,
}

impl PixelBoard {
    pub open spec fn wf(&self) -> bool {
        self.owners.len() == TOTAL_NUM_PIXELS && self.colors.len() == TOTAL_NUM_PIXELS
    }

    /// A canvas whose every cell belongs to account 0 and has colour 0.
    pub fn new() -> (r: PixelBoard)
        ensures
            r.wf(),
            forall|k: int| 0 <= k < TOTAL_NUM_PIXELS ==> r.owners@[k] == 0 && r.colors@[k] == 0,
    {
        let mut owners: Vec<u32> = Vec::new();
        let mut colors: Vec<u32> = Vec::new();
        let mut i: u32 = 0;
        while i < TOTAL_NUM_PIXELS
            invariant
                i <= TOTAL_NUM_PIXELS,
                owners.len() == i,
                colors.len() == i,
                forall|k: int| 0 <= k < i ==> owners@[k] == 0 && colors@[k] == 0,
            decreases TOTAL_NUM_PIXELS - i,
        {
            owners.push(0);
            colors.push(0);
            i = i + 1;
        }
        PixelBoard { owners, colors }
    }

    pub fn is_valid_pixel(p: &SetPixelRequest) -> (r: bool)
        ensures
            r == valid_pixel(*p),
    {
        (p.x as u32) < BOARD_WIDTH && (p.y as u32) < BOARD_HEIGHT
    }

    /// Owner of the cell that `p` claims.
    pub fn get_owner(&self, p: &SetPixelRequest) -> (r: u32)
        requires
            self.wf(),
            valid_pixel(*p),
        ensures
            r == self.owners@[pixel_cell(*p)],
    {
        self.owners[(p.y as u32 * BOARD_WIDTH + p.x as u32) as usize]
    }

    /// Gives the cell that `p` claims to `owner`, painted `p.color`; returns its previous owner.
    pub fn set_pixel(&mut self, owner: u32, p: &SetPixelRequest) -> (r: u32)
        requires
            old(self).wf(),
            valid_pixel(*p),
        ensures
            final(self).wf(),
            r == old(self).owners@[pixel_cell(*p)],
            final(self).owners@ == old(self).owners@.update(pixel_cell(*p), owner),
            final(self).colors@ == old(self).colors@.update(pixel_cell(*p), p.color),
    {
        let c = (p.y as u32 * BOARD_WIDTH + p.x as u32) as usize;
        let prev = self.owners[c];
        self.owners.set(c, owner);
        self.colors.set(c, p.color);
        prev
    }
}

pub proof fn lemma_count_update(s: Seq<u32>, c: int, v: u32, i: int)
    requires
        0 <= c < s.len(),
    ensures
        count_owned(s.update(c, v), i) + (if s[c] == i {
            1int
        } else {
            0int
        }) == count_owned(s, i) + (if v == i {
            1int
        } else {
            0int
        }),
    decreases s.len(),
{
    let t = s.update(c, v);
    if c == s.len() - 1 {
        assert(t.drop_last() =~= s.drop_last());
    } else {
        assert(t.drop_last() =~= s.drop_last().update(c, v));
        lemma_count_update(s.drop_last(), c, v, i);
    }
}

pub proof fn lemma_count_pos(s: Seq<u32>, c: int)
    requires
        0 <= c < s.len(),
    ensures
        count_owned(s, s[c] as int) >= 1,
    decreases s.len(),
{
    if c < s.len() - 1 {
        lemma_count_pos(s.drop_last(), c);
    }
}

pub proof fn lemma_count_absent(s: Seq<u32>, i: int)
    requires
        forall|k: int| 0 <= k < s.len() ==> s[k] != i,
    ensures
        count_owned(s, i) == 0,
    decreases s.len(),
{
    if s.len() > 0 {
        lemma_count_absent(s.drop_last(), i);
    }
}

pub proof fn lemma_count_le_len(s: Seq<u32>, i: int)
    ensures
        count_owned(s, i) <= s.len(),
    decreases s.len(),
{
    if s.len() > 0 {
        lemma_count_le_len(s.drop_last(), i);
    }
}

pub proof fn lemma_count_uniform(s: Seq<u32>, v: u32)
    requires
        forall|k: int| 0 <= k < s.len() ==> s[k] == v,
    ensures
        count_owned(s, v as int) == s.len(),
    decreases s.len(),
{
    if s.len() > 0 {
        lemma_count_uniform(s.drop_last(), v);
    }
}

} // verus!
