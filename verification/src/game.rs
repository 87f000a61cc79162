//! The integer side of the Asteroids game: its pseudo-random generator,
//! asteroid sizes and what they score, and the score line.
use vstd::prelude::*;

use crate::text::{decimal, lemma_decimal_len_u32, push_decimal, push_str};
use vstd::string::StrSliceExecFns;

verus! {

/// One step of the 32-bit xorshift generator (shifts 13, 17, 5).
pub open spec fn xorshift(x: u32) -> u32 {
    let a = x ^ (x << 13u32);
    let b = a ^ (a >> 17u32);
    b ^ (b << 5u32)
}

/// A tiny xorshift generator, good enough for scattering asteroid shapes
/// and spawn points. Its state is never zero, the one state xorshift
/// would never leave.
pub struct Rng {
    state: u32,
}

impl Rng {
    /// The generator's state.
    pub closed spec fn state(self) -> u32 {
        self.state
    }

    #[verifier::type_invariant]
    spec fn nonzero(self) -> bool {
        self.state != 0
    }

    /// A generator seeded with `seed`, its lowest bit forced on so that the
    /// state is not zero.
    pub fn new(seed: u32) -> (r: Self)
        ensures
            r.state() == seed | 1,
            r.state() != 0,
    {
        let state = seed | 1;
        assert(seed | 1 != 0) by (bit_vector);
        Rng { state }
    }

    /// Advances the generator and returns its new state.
    pub fn next_u32(&mut self) -> (r: u32)
        ensures
            r == xorshift(old(self).state()),
            final(self).state() == r,
            r != 0,
    {
        proof {
            use_type_invariant(&*self);
            lemma_xorshift_nonzero(self.state);
        }
        let mut x = self.state;
        x = x ^ (x << 13u32);
        x = x ^ (x >> 17u32);
        x = x ^ (x << 5u32);
        self.state = x;
        x
    }
}

/// xorshift maps every nonzero state to a nonzero state, so a generator
/// that starts away from zero never gets stuck there.
pub proof fn lemma_xorshift_nonzero(x: u32)
    requires
        x != 0,
    ensures
        xorshift(x) != 0,
{
    assert(x != 0 ==> ({
        let a = x ^ (x << 13u32);
        let b = a ^ (a >> 17u32);
        b ^ (b << 5u32)
    }) != 0) by (bit_vector);
}

/// The three sizes of asteroid; each hit splits one into two of the next
/// smaller size.
#[derive(Debug, Clone, Copy, PartialEq, Eq, Structural)]
pub enum AsteroidSize {
    Large,
    Medium,
    Small,
}

/// Points for shooting an asteroid of size `size`: smaller rocks are
/// harder to hit and worth more.
pub open spec fn spec_score(size: AsteroidSize) -> u32 {
    match size {
        AsteroidSize::Large => 20,
        AsteroidSize::Medium => 50,
        AsteroidSize::Small => 100,
    }
}

/// The size a hit asteroid splits into, if any.
pub open spec fn spec_smaller(size: AsteroidSize) -> Option<AsteroidSize> {
    match size {
        AsteroidSize::Large => Some(AsteroidSize::Medium),
        AsteroidSize::Medium => Some(AsteroidSize::Small),
        AsteroidSize::Small => None,
    }
}

impl AsteroidSize {
    /// Points for shooting this asteroid.
    pub fn score(self) -> (r: u32)
        ensures
            r == spec_score(self),
    {
        match self {
            AsteroidSize::Large => 20,
            AsteroidSize::Medium => 50,
            AsteroidSize::Small => 100,
        }
    }

    /// What this asteroid splits into when hit; the smallest ones vanish.
    pub fn smaller(self) -> (r: Option<AsteroidSize>)
        ensures
            r == spec_smaller(self),
    {
        match self {
            AsteroidSize::Large => Some(AsteroidSize::Medium),
            AsteroidSize::Medium => Some(AsteroidSize::Small),
            AsteroidSize::Small => None,
        }
    }
}

/// Splitting always ends: two hits at most take a large rock down to the
/// smallest size, and a third hit removes it. Along the way each split
/// scores more than the one before.
pub proof fn lemma_split_chain(size: AsteroidSize)
    ensures
        spec_smaller(size) matches Some(s) ==> spec_score(s) > spec_score(size),
        spec_smaller(AsteroidSize::Large) == Some(AsteroidSize::Medium),
        spec_smaller(AsteroidSize::Medium) == Some(AsteroidSize::Small),
        spec_smaller(AsteroidSize::Small) is None,
{
}

/// The first bullet from `j` on that touches the asteroid (`row[j]`) and
/// has not already been spent on another one (`used[j]`).
pub open spec fn first_free_hit(row: Seq<bool>, used: Seq<bool>, j: int) -> Option<int>
    decreases row.len() - j,
{
    if j < 0 || j >= row.len() {
        None
    } else if row[j] && !used[j] {
        Some(j)
    } else {
        first_free_hit(row, used, j + 1)
    }
}

/// One frame's collisions, resolved asteroid by asteroid in order: each
/// asteroid is destroyed by the first bullet touching it that no earlier
/// asteroid took, and that bullet is spent. `hits[i][j]` says asteroid `i`
/// and bullet `j` touch; gives, per asteroid, the bullet that destroyed it,
/// and which of the `bullets` bullets are spent.
pub open spec fn resolve_hits_spec(hits: Seq<Seq<bool>>, bullets: nat) -> (Seq<Option<int>>, Seq<bool>)
    decreases hits.len(),
{
    if hits.len() == 0 {
        (Seq::empty(), Seq::new(bullets, |j: int| false))
    } else {
        let (by, used) = resolve_hits_spec(hits.drop_last(), bullets);
        let pick = first_free_hit(hits.last(), used, 0);
        (
            by.push(pick),
            match pick {
                Some(j) => used.update(j, true),
                None => used,
            },
        )
    }
}

/// A found free hit touches the asteroid, was not spent, and comes first.
proof fn lemma_first_free_hit(row: Seq<bool>, used: Seq<bool>, j: int)
    requires
        0 <= j,
    ensures
        first_free_hit(row, used, j) matches Some(p) ==> j <= p < row.len() && row[p] && !used[p],
    decreases row.len() - j,
{
    if j < row.len() && !(row[j] && !used[j]) {
        lemma_first_free_hit(row, used, j + 1);
    }
}

/// Every bullet destroys at most one asteroid, only one it touches, and a
/// bullet is spent exactly when it destroyed an asteroid.
pub proof fn lemma_one_asteroid_per_bullet(hits: Seq<Seq<bool>>, bullets: nat)
    requires
        forall|i: int| 0 <= i < hits.len() ==> (#[trigger] hits[i]).len() == bullets,
    ensures
        ({
            let (by, spent) = resolve_hits_spec(hits, bullets);
            &&& by.len() == hits.len()
            &&& spent.len() == bullets
            &&& forall|i: int| 0 <= i < by.len() && by[i] is Some ==> {
                let j = by[i]->0;
                0 <= j < bullets && hits[i][j]
            }
            &&& forall|i: int, k: int|
                #![trigger by[i], by[k]]
                0 <= i < k < by.len() && by[i] is Some ==> by[i] != by[k]
            &&& forall|j: int| 0 <= j < bullets ==> (#[trigger] spent[j] <==> exists|i: int| 0 <= i < by.len() && by[i] == Some(j))
        }),
    decreases hits.len(),
{
    let (by, spent) = resolve_hits_spec(hits, bullets);
    if hits.len() > 0 {
        let init = hits.drop_last();
        lemma_one_asteroid_per_bullet(init, bullets);
        let (by0, used) = resolve_hits_spec(init, bullets);
        let row = hits.last();
        lemma_first_free_hit(row, used, 0);
        let pick = first_free_hit(row, used, 0);
        assert forall|i: int| 0 <= i < by.len() && by[i] is Some implies {
            let j = by[i]->0;
            0 <= j < bullets && hits[i][j]
        } by {
            if i < by0.len() {
                assert(by[i] == by0[i]);
                assert(hits[i] == init[i]);
            }
        }
        assert forall|i: int, k: int| #![trigger by[i], by[k]] 0 <= i < k < by.len() && by[i] is Some implies by[i] != by[k] by {
            if k < by0.len() {
                assert(by[i] == by0[i] && by[k] == by0[k]);
            } else {
                assert(by[i] == by0[i]);
                if by[k] == by[i] {
                    let j = by[i]->0;
                    assert(used[j]);
                }
            }
        }
        assert forall|j: int| 0 <= j < bullets implies (#[trigger] spent[j] <==> exists|i: int|
            0 <= i < by.len() && by[i] == Some(j)) by {
            assert(by[by0.len() as int] == pick);
            if pick == Some(j) {
                assert(by[by0.len() as int] == Some(j));
            }
            if used[j] {
                let i = choose|i: int| 0 <= i < by0.len() && by0[i] == Some(j);
                assert(by[i] == by0[i]);
            }
            if exists|i: int| 0 <= i < by.len() && by[i] == Some(j) {
                let i = choose|i: int| 0 <= i < by.len() && by[i] == Some(j);
                if i < by0.len() {
                    assert(by0[i] == Some(j));
                }
            }
        }
    }
}

/// The points for the destroyed asteroids: each one that `by` gives a
/// bullet for scores its size's points.
pub open spec fn hit_points(sizes: Seq<AsteroidSize>, by: Seq<Option<int>>) -> nat
    decreases sizes.len(),
{
    if sizes.len() == 0 || by.len() == 0 {
        0
    } else {
        hit_points(sizes.drop_last(), by.drop_last()) + if by.last() is Some {
            spec_score(sizes.last()) as nat
        } else {
            0nat
        }
    }
}

/// An index as a mathematical value.
pub open spec fn index_view(o: Option<usize>) -> Option<int> {
    match o {
        Some(j) => Some(j as int),
        None => None,
    }
}

/// What one frame's collisions do to the game's bookkeeping.
pub struct Hits {
    /// Per asteroid, the bullet that destroyed it.
    pub destroyed_by: Vec<Option<usize>>,
    /// Per bullet, whether it was spent on an asteroid.
    pub spent: Vec<bool>,
    /// The points scored.
    pub points: u128,
}

/// Resolves one frame's collisions: asteroid `i` (of size `sizes[i]`)
/// touches bullet `j` when `hits[i][j]`. Each asteroid in turn is destroyed
/// by the first touching bullet not yet spent, which is then spent; the
/// destroyed asteroids' points are summed.
pub fn resolve_hits(sizes: &[AsteroidSize], hits: &[Vec<bool>], bullets: usize) -> (r: Hits)
    requires
        sizes.len() == hits.len(),
        forall|i: int| 0 <= i < hits.len() ==> (#[trigger] hits[i])@.len() == bullets,
    ensures
        r.destroyed_by@.len() == hits.len(),
        forall|i: int|
            0 <= i < hits.len() ==> index_view(#[trigger] r.destroyed_by@[i]) == resolve_hits_spec(
                hits@.map_values(|row: Vec<bool>| row@),
                bullets as nat,
            ).0[i],
        r.spent@ == resolve_hits_spec(hits@.map_values(|row: Vec<bool>| row@), bullets as nat).1,
        r.points == hit_points(sizes@, resolve_hits_spec(hits@.map_values(|row: Vec<bool>| row@), bullets as nat).0),
{
    let ghost rows = hits@.map_values(|row: Vec<bool>| row@);
    let mut destroyed_by: Vec<Option<usize>> = Vec::new();
    let mut spent: Vec<bool> = Vec::new();
    let mut k: usize = 0;
    while k < bullets
        invariant
            k <= bullets,
            spent@ == Seq::new(k as nat, |j: int| false),
        decreases bullets - k,
    {
        spent.push(false);
        proof {
            assert(spent@ =~= Seq::new((k + 1) as nat, |j: int| false));
        }
        k += 1;
    }
    let mut points: u128 = 0;
    let mut i: usize = 0;
    proof {
        assert(rows.take(0) =~= Seq::<Seq<bool>>::empty());
    }
    while i < hits.len()
        invariant
            i <= hits.len(),
            sizes.len() == hits.len(),
            rows == hits@.map_values(|row: Vec<bool>| row@),
            forall|q: int| 0 <= q < hits.len() ==> (#[trigger] hits[q])@.len() == bullets,
            destroyed_by@.len() == i,
            forall|q: int|
                0 <= q < i ==> index_view(#[trigger] destroyed_by@[q]) == resolve_hits_spec(
                    rows.take(i as int),
                    bullets as nat,
                ).0[q],
            spent@ == resolve_hits_spec(rows.take(i as int), bullets as nat).1,
            spent@.len() == bullets,
            resolve_hits_spec(rows.take(i as int), bullets as nat).0.len() == i,
            points == hit_points(sizes@.take(i as int), resolve_hits_spec(rows.take(i as int), bullets as nat).0),
            points <= 100 * i,
        decreases hits.len() - i,
    {
        let row = &hits[i];
        let ghost used0 = spent@;
        let mut j: usize = 0;
        let mut pick: Option<usize> = None;
        while j < bullets && pick.is_none()
            invariant
                j <= bullets,
                row@.len() == bullets,
                spent@ == used0,
                used0.len() == bullets,
                pick matches Some(p) ==> p < bullets && first_free_hit(row@, used0, 0) == Some(p as int),
                pick is None ==> first_free_hit(row@, used0, 0) == first_free_hit(row@, used0, j as int),
            decreases bullets - j,
        {
            if row[j] && !spent[j] {
                pick = Some(j);
            }
            j += 1;
        }
        let ghost prev = rows.take(i as int);
        let ghost next = rows.take(i + 1);
        proof {
            assert(next.drop_last() =~= prev);
            assert(next.last() == row@);
        }
        match pick {
            Some(p) => {
                spent.set(p, true);
                points = points + sizes[i].score() as u128;
            },
            None => {},
        }
        let ghost before_push = destroyed_by@;
        destroyed_by.push(pick);
        proof {
            let (by0, _) = resolve_hits_spec(prev, bullets as nat);
            let (by1, _) = resolve_hits_spec(next, bullets as nat);
            assert(by1 == by0.push(index_view(pick)));
            assert(by1.drop_last() =~= by0);
            assert(by1.last() == index_view(pick));
            assert(sizes@.take(i + 1).drop_last() =~= sizes@.take(i as int));
            assert(sizes@.take(i + 1).last() == sizes[i as int]);
            assert forall|q: int| 0 <= q < i + 1 implies index_view(#[trigger] destroyed_by@[q]) == by1[q] by {
                if q < i {
                    assert(destroyed_by@[q] == before_push[q]);
                }
            }
        }
        i += 1;
    }
    proof {
        assert(rows.take(hits.len() as int) =~= rows);
        assert(sizes@.take(hits.len() as int) =~= sizes@);
    }
    Hits { destroyed_by, spent, points }
}

/// Whether the game is still running.
#[derive(Debug, Clone, Copy, PartialEq, Eq, Structural)]
pub enum State {
    Playing,
    GameOver,
}

/// The player's controls for one frame.
#[derive(Debug, Clone, Copy, PartialEq, Eq, Structural)]
pub struct Input {
    pub left: bool,
    pub right: bool,
    pub thrust: bool,
    pub fire: bool,
}

/// The score line, `Score: ` and the score in decimal.
pub open spec fn score_text(score: u32) -> Seq<char> {
    seq!['S', 'c', 'o', 'r', 'e', ':', ' '] + decimal(score as nat)
}

/// The score line fits the fixed 24-byte buffer `write_score` fills.
pub proof fn lemma_score_text_fits(score: u32)
    ensures
        score_text(score).len() <= 17,
{
    lemma_decimal_len_u32(score);
}

/// Writes the score line `Score: {score}` into the start of `buf`, as
/// ASCII bytes, and returns its length; the rest of `buf` is left as it
/// was. Needs no allocation-free formatter on the caller's side: the bytes
/// are ready to be read as a `&str`.
pub fn write_score(buf: &mut [u8; 24], score: u32) -> (len: usize)
    ensures
        len == score_text(score).len(),
        len <= 24,
        forall|i: int| 0 <= i < len ==> #[trigger] final(buf)@[i] == score_text(score)[i] as u8,
        forall|i: int| len <= i < 24 ==> #[trigger] final(buf)@[i] == old(buf)@[i],
{
    let mut text = String::new();
    push_str(&mut text, "Score: ");
    push_decimal(&mut text, score as u64);
    proof {
        reveal_strlit("Score: ");
        assert(text@ =~= score_text(score));
        lemma_score_text_fits(score);
    }
    let s = text.as_str();
    let len = s.unicode_len();
    let mut i = 0usize;
    while i < len
        invariant
            len == score_text(score).len(),
            len <= 17,
            s@ == score_text(score),
            i <= len,
            forall|j: int| 0 <= j < i ==> #[trigger] buf@[j] == score_text(score)[j] as u8,
            forall|j: int| i <= j < 24 ==> #[trigger] buf@[j] == old(buf)@[j],
        decreases len - i,
    {
        let c = s.get_char(i);
        buf[i] = c as u8;
        i += 1;
    }
    len
}

} // verus!
