//! The native kernel's window-backed display and keyboard: the framebuffer
//! state that the display writes into, and the translation of the window's
//! pressed-key sets into key press and release events.
//!
//! The window itself and the threads that drive it are the host's work; the
//! decisions they make each frame are here.
use vstd::prelude::*;

verus! {

/// Dimensions of a surface, in pixels.
#[derive(Clone, Copy, Debug, PartialEq, Eq, Structural)]
pub struct Dims {
    pub w: u32,
    pub h: u32,
}

impl Dims {
    pub fn new(w: u32, h: u32) -> (r: Dims)
        ensures
            r == (Dims { w: w, h: h }),
    {
        Dims { w: w, h: h }
    }

    pub fn width(&self) -> (r: u32)
        ensures
            r == self.w,
    {
        self.w
    }

    pub fn height(&self) -> (r: u32)
        ensures
            r == self.h,
    {
        self.h
    }
}

/// A rectangle: top-left corner (`x`, `y`) and size.
#[derive(Clone, Copy, Debug, PartialEq, Eq, Structural)]
pub struct Rect {
    pub x: u32,
    pub y: u32,
    pub w: u32,
    pub h: u32,
}

impl Rect {
    pub fn new(x: u32, y: u32, w: u32, h: u32) -> (r: Rect)
        ensures
            r == (Rect { x: x, y: y, w: w, h: h }),
    {
        Rect { x: x, y: y, w: w, h: h }
    }

    pub fn top(&self) -> (r: u32)
        ensures
            r == self.y,
    {
        self.y
    }

    pub fn bottom(&self) -> (r: u32)
        requires
            self.y + self.h <= u32::MAX,
        ensures
            r == self.y + self.h,
    {
        self.y + self.h
    }

    pub fn left(&self) -> (r: u32)
        ensures
            r == self.x,
    {
        self.x
    }

    pub fn right(&self) -> (r: u32)
        requires
            self.x + self.w <= u32::MAX,
        ensures
            r == self.x + self.w,
    {
        self.x + self.w
    }
}

/// The backbuffer after the first `n` rows of `src` (rows of `dst.w`
/// pixels) have been copied to rows `dst.y ..` of a buffer `stride` pixels
/// wide, each starting at column `dst.x`.
pub open spec fn blit_rows(back: Seq<u32>, stride: nat, dst: Rect, src: Seq<u32>, n: nat) -> Seq<u32>
    decreases n,
{
    if n == 0 {
        back
    } else {
        let prev = blit_rows(back, stride, dst, src, (n - 1) as nat);
        let start = (dst.y + (n - 1)) * stride + dst.x;
        let row = src.subrange((n - 1) * dst.w, n * dst.w);
        prev.take(start) + row + prev.skip(start + dst.w)
    }
}

/// Where row `r` of a blit into `dst` starts in a buffer `stride` pixels
/// wide.
pub open spec fn blit_row_start(stride: nat, dst: Rect, r: int) -> int {
    (dst.y + r) * stride + dst.x
}

/// A blit keeps the buffer's length when every row it writes lies in it.
pub proof fn lemma_blit_rows_len(back: Seq<u32>, stride: nat, dst: Rect, src: Seq<u32>, n: nat)
    requires
        src.len() >= n * dst.w,
        n > 0 ==> blit_row_start(stride, dst, n - 1) + dst.w <= back.len(),
    ensures
        blit_rows(back, stride, dst, src, n).len() == back.len(),
    decreases n,
{
    if n > 0 {
        if n > 1 {
            assert(blit_row_start(stride, dst, n - 2) <= blit_row_start(stride, dst, n - 1)) by (nonlinear_arith)
                requires
                    n > 1,
            ;
        }
        assert((n - 1) * dst.w <= n * dst.w) by (nonlinear_arith)
            requires
                n > 0,
        ;
        lemma_blit_rows_len(back, stride, dst, src, (n - 1) as nat);
        assert(n * dst.w == (n - 1) * dst.w + dst.w) by (nonlinear_arith)
            requires
                n > 0,
        ;
    }
}

/// A blit of `n` rows of a rectangle that fits across the buffer's width
/// puts pixel `c` of source row `r` at column `dst.x + c` of buffer row
/// `dst.y + r`.
pub proof fn law_blit_places_pixel(back: Seq<u32>, stride: nat, dst: Rect, src: Seq<u32>, n: nat, r: int, c: int)
    requires
        dst.x + dst.w <= stride,
        src.len() >= n * dst.w,
        n > 0 ==> blit_row_start(stride, dst, n - 1) + dst.w <= back.len(),
        0 <= r < n,
        0 <= c < dst.w,
    ensures
        blit_rows(back, stride, dst, src, n)[blit_row_start(stride, dst, r) + c] == src[r * dst.w + c],
    decreases n,
{
    let m = (n - 1) as nat;
    let start = blit_row_start(stride, dst, m as int);
    let prev = blit_rows(back, stride, dst, src, m);
    let row = src.subrange(m * dst.w, n * dst.w);
    let i = blit_row_start(stride, dst, r) + c;
    assert(n * dst.w == m * dst.w + dst.w) by (nonlinear_arith)
        requires
            m == n - 1,
    ;
    if m > 0 {
        assert(blit_row_start(stride, dst, m - 1) <= start) by (nonlinear_arith)
            requires
                m > 0,
                start == blit_row_start(stride, dst, m as int),
        ;
    }
    lemma_blit_rows_len(back, stride, dst, src, m);
    let res = blit_rows(back, stride, dst, src, n);
    assert(res == prev.take(start) + row + prev.skip(start + dst.w));
    if r == m {
        assert(res[i] == row[c]);
    } else {
        assert(blit_row_start(stride, dst, r) + dst.w <= start) by (nonlinear_arith)
            requires
                r < m,
                dst.x + dst.w <= stride,
                start == blit_row_start(stride, dst, m as int),
        ;
        assert(r * dst.w + c < m * dst.w) by (nonlinear_arith)
            requires
                r < m,
                c < dst.w,
        ;
        law_blit_places_pixel(back, stride, dst, src, m, r, c);
        assert(res[i] == prev[i]);
    }
}

/// A blit leaves every pixel that none of its rows covers as it was.
pub proof fn law_blit_keeps_outside(back: Seq<u32>, stride: nat, dst: Rect, src: Seq<u32>, n: nat, i: int)
    requires
        src.len() >= n * dst.w,
        n > 0 ==> blit_row_start(stride, dst, n - 1) + dst.w <= back.len(),
        0 <= i < back.len(),
        forall|r: int| 0 <= r < n ==> !(#[trigger] blit_row_start(stride, dst, r) <= i < blit_row_start(stride, dst, r) + dst.w),
    ensures
        blit_rows(back, stride, dst, src, n)[i] == back[i],
    decreases n,
{
    if n > 0 {
        let m = (n - 1) as nat;
        let start = blit_row_start(stride, dst, m as int);
        let prev = blit_rows(back, stride, dst, src, m);
        let row = src.subrange(m * dst.w, n * dst.w);
        assert(n * dst.w == m * dst.w + dst.w) by (nonlinear_arith)
            requires
                m == n - 1,
        ;
        if m > 0 {
            assert(blit_row_start(stride, dst, m - 1) <= start) by (nonlinear_arith)
                requires
                    m > 0,
                    start == blit_row_start(stride, dst, m as int),
            ;
        }
        lemma_blit_rows_len(back, stride, dst, src, m);
        law_blit_keeps_outside(back, stride, dst, src, m, i);
        let res = blit_rows(back, stride, dst, src, n);
        assert(res == prev.take(start) + row + prev.skip(start + dst.w));
        assert(!(start <= i < start + dst.w));
        assert(res[i] == prev[i]);
    }
}

/// The display's state, shared between the kernel side and the window.
pub struct State {
    /// Current size of the window
    size: Dims,
    /// Backing buffer
    backbuffer: Vec<u32>,
    /// Indicates that the buffer has changed since it was last sent to the window
    dirty: bool,
}

impl State {
    /// The backbuffer holds one pixel for each of the display's `w * h`.
    #[verifier::type_invariant]
    spec fn well_formed(&self) -> bool {
        self.backbuffer@.len() == self.size.w * self.size.h
    }

    pub closed spec fn spec_size(&self) -> Dims {
        self.size
    }

    pub closed spec fn spec_backbuffer(&self) -> Seq<u32> {
        self.backbuffer@
    }

    pub closed spec fn spec_dirty(&self) -> bool {
        self.dirty
    }

    /// The state a new console starts with: a black 640x480 buffer that
    /// still has to be shown.
    pub fn new() -> (r: State)
        ensures
            r.spec_size() == (Dims { w: 640, h: 480 }),
            r.spec_backbuffer() == Seq::new(640 * 480, |_i: int| 0u32),
            r.spec_dirty(),
    {
        let backbuffer = vec![0u32; 640 * 480];
        assert(backbuffer@ =~= Seq::new(640 * 480, |_i: int| 0u32));
        State { size: Dims::new(640, 480), backbuffer: backbuffer, dirty: true }
    }

    /// The display's size.
    pub fn get_size(&self) -> (r: Dims)
        ensures
            r == self.spec_size(),
    {
        self.size
    }

    /// The backbuffer's pixels.
    pub fn backbuffer(&self) -> (r: &Vec<u32>)
        ensures
            r@ == self.spec_backbuffer(),
            r@.len() == self.spec_size().w * self.spec_size().h,
    {
        proof {
            use_type_invariant(self);
        }
        &self.backbuffer
    }

    /// Whether the buffer changed since it was last shown; clears the flag,
    /// as the window does when it sends the buffer.
    pub fn take_dirty(&mut self) -> (r: bool)
        ensures
            r == old(self).spec_dirty(),
            !final(self).spec_dirty(),
            final(self).spec_size() == old(self).spec_size(),
            final(self).spec_backbuffer() == old(self).spec_backbuffer(),
    {
        proof {
            use_type_invariant(&*self);
        }
        let r = self.dirty;
        self.dirty = false;
        r
    }

    /// Copy `src`, rows of `dst.w` pixels, into the rectangle `dst` of the
    /// backbuffer, and mark the buffer as changed.
    pub fn blit_buf(&mut self, dst: Rect, src: &[u32])
        requires
            dst.w > 0,
            dst.y + dst.h <= u32::MAX,
            dst.x + dst.w <= u32::MAX,
            src@.len() == dst.w * dst.h,
            dst.h > 0 ==> (dst.y + dst.h - 1) * old(self).spec_size().w + dst.x + dst.w
                <= old(self).spec_size().w * old(self).spec_size().h,
        ensures
            final(self).spec_size() == old(self).spec_size(),
            final(self).spec_dirty(),
            final(self).spec_backbuffer() == blit_rows(
                old(self).spec_backbuffer(),
                old(self).spec_size().w as nat,
                dst,
                src@,
                dst.h as nat,
            ),
    {
        proof {
            use_type_invariant(&*self);
        }
        let ghost w0 = self.size.w;
        let ghost h0 = self.size.h;
        let empty: Vec<u32> = Vec::new();
        assert(empty@.len() == 0u32 * 0u32);
        let mut taken = State { size: Dims { w: 0, h: 0 }, backbuffer: empty, dirty: false };
        core::mem::swap(self, &mut taken);
        let State { size, backbuffer, dirty: _ } = taken;
        let mut back = backbuffer;
        let ghost back0 = back@;
        assert(back0.len() == back.len());
        assert(back0.len() == w0 * h0);
        assert(src@.len() == src.len());
        let bw = size.w as usize;
        let w = dst.w as usize;
        let top = dst.y as usize;
        let left = dst.x as usize;
        let h = dst.h as usize;
        let mut k: usize = 0;
        while k < h
            invariant
                k <= h,
                h == dst.h,
                w == dst.w,
                top == dst.y,
                left == dst.x,
                bw == size.w,
                size == old(self).size,
                dst.y + dst.h <= u32::MAX,
                w > 0,
                src@.len() == w * h,
                h > 0 ==> (top + h - 1) * bw + left + w <= back0.len(),
                back@.len() == back0.len(),
                back0.len() <= usize::MAX,
                src@.len() <= usize::MAX,
                back0 == old(self).backbuffer@,
                back0.len() == size.w * size.h,
                back@ == blit_rows(back0, bw as nat, dst, src@, k as nat),
            decreases h - k,
        {
            proof {
                assert((top + k) * bw <= (top + h - 1) * bw) by (nonlinear_arith)
                    requires
                        k < h,
                ;
                assert((k + 1) * w <= h * w) by (nonlinear_arith)
                    requires
                        k < h,
                ;
                assert((k + 1) * w == k * w + w) by (nonlinear_arith);
                assert(w * h == h * w) by (nonlinear_arith);
            }
            let start = (top + k) * bw + left;
            let from = k * w;
            let ghost prev = back@;
            let mut c: usize = 0;
            while c < w
                invariant
                    c <= w,
                    start + w <= prev.len(),
                    prev.len() <= usize::MAX,
                    src@.len() <= usize::MAX,
                    size == old(self).size,
                    from + w <= src@.len(),
                    back@.len() == prev.len(),
                    forall|i: int| 0 <= i < start ==> back@[i] == prev[i],
                    forall|i: int| start + w <= i < prev.len() ==> back@[i] == prev[i],
                    forall|i: int| start + c <= i < start + w ==> back@[i] == prev[i],
                    forall|i: int| start <= i < start + c ==> #[trigger] back@[i] == src@[from + (i - start)],
                decreases w - c,
            {
                back.set(start + c, src[from + c]);
                c = c + 1;
            }
            proof {
                let row = src@.subrange(k * w, (k + 1) * w);
                let target = prev.take(start as int) + row + prev.skip(start + w);
                assert(back@ =~= target);
            }
            k = k + 1;
        }
        proof {
            assert(w * h == h * w) by (nonlinear_arith);
            lemma_blit_rows_len(back0, bw as nat, dst, src@, h as nat);
        }
        *self = State { size: size, backbuffer: back, dirty: true };
    }
}

/// The change between two sorted pressed-key lists, found by walking them
/// together: a key met only in `prev` is released (`true`), a key met only
/// in `next` is pressed (`false`), and a key in both gives no event.
pub open spec fn key_events(prev: Seq<u32>, next: Seq<u32>) -> Seq<(bool, u32)>
    decreases prev.len() + next.len(),
{
    if prev.len() == 0 && next.len() == 0 {
        Seq::empty()
    } else if next.len() == 0 || (prev.len() > 0 && prev[0] < next[0]) {
        seq![(true, prev[0])] + key_events(prev.drop_first(), next)
    } else if prev.len() == 0 || prev[0] > next[0] {
        seq![(false, next[0])] + key_events(prev, next.drop_first())
    } else {
        key_events(prev.drop_first(), next.drop_first())
    }
}

/// Keys in strictly increasing order (sorted, each key once).
pub open spec fn strictly_sorted(s: Seq<u32>) -> bool {
    forall|i: int, j: int| 0 <= i < j < s.len() ==> s[i] < s[j]
}

/// The keys held down after applying press and release events in order;
/// `None` when an event presses a key that is already held or releases one
/// that is not.
pub open spec fn apply_key_events(held: Set<u32>, events: Seq<(bool, u32)>) -> Option<Set<u32>>
    decreases events.len(),
{
    if events.len() == 0 {
        Some(held)
    } else {
        let (release, k) = events[0];
        if release != held.contains(k) {
            None
        } else {
            let held1 = if release {
                held.remove(k)
            } else {
                held.insert(k)
            };
            apply_key_events(held1, events.drop_first())
        }
    }
}

proof fn lemma_apply_key_events(extra: Set<u32>, prev: Seq<u32>, next: Seq<u32>)
    requires
        strictly_sorted(prev),
        strictly_sorted(next),
        forall|k: u32| extra.contains(k) ==> !prev.contains(k) && !next.contains(k),
    ensures
        apply_key_events(extra + prev.to_set(), key_events(prev, next)) == Some(extra + next.to_set()),
    decreases prev.len() + next.len(),
{
    broadcast use vstd::seq_lib::group_seq_properties;
    broadcast use vstd::set::group_set_axioms;
    if prev.len() == 0 && next.len() == 0 {
        assert(prev.to_set() =~= Set::<u32>::empty());
        assert(next.to_set() =~= Set::<u32>::empty());
    } else if next.len() == 0 || (prev.len() > 0 && prev[0] < next[0]) {
        let p = prev[0];
        let rest = prev.drop_first();
        let ev = key_events(prev, next);
        assert(ev.drop_first() =~= key_events(rest, next));
        assert(strictly_sorted(rest));
        assert(!rest.contains(p)) by {
            if rest.contains(p) {
                let i = rest.index_of(p);
                assert(prev[i + 1] == p);
            }
        }
        assert(!next.contains(p)) by {
            if next.contains(p) {
                let i = next.index_of(p);
                assert(next[0] <= next[i]) by {
                    if i > 0 {
                        assert(next[0] < next[i]);
                    }
                }
            }
        }
        assert(forall|k: u32| rest.contains(k) ==> prev.contains(k)) by {
            assert forall|k: u32| rest.contains(k) implies prev.contains(k) by {
                let i = rest.index_of(k);
                assert(prev[i + 1] == k);
            }
        }
        assert((extra + prev.to_set()).remove(p) =~= extra + rest.to_set()) by {
            assert forall|k: u32| prev.contains(k) && k != p implies rest.contains(k) by {
                let i = prev.index_of(k);
                assert(i != 0);
                assert(rest[i - 1] == k);
            }
        }
        lemma_apply_key_events(extra, rest, next);
    } else if prev.len() == 0 || prev[0] > next[0] {
        let n = next[0];
        let rest = next.drop_first();
        let ev = key_events(prev, next);
        assert(ev.drop_first() =~= key_events(prev, rest));
        assert(strictly_sorted(rest));
        assert(!rest.contains(n)) by {
            if rest.contains(n) {
                let i = rest.index_of(n);
                assert(next[i + 1] == n);
            }
        }
        assert(!prev.contains(n)) by {
            if prev.contains(n) {
                let i = prev.index_of(n);
                assert(prev[0] <= prev[i]) by {
                    if i > 0 {
                        assert(prev[0] < prev[i]);
                    }
                }
            }
        }
        assert forall|k: u32| rest.contains(k) implies next.contains(k) by {
            let i = rest.index_of(k);
            assert(next[i + 1] == k);
        }
        let extra1 = extra.insert(n);
        assert((extra + prev.to_set()).insert(n) =~= extra1 + prev.to_set());
        assert(extra1 + rest.to_set() =~= extra + next.to_set()) by {
            assert forall|k: u32| next.contains(k) && k != n implies rest.contains(k) by {
                let i = next.index_of(k);
                assert(i != 0);
                assert(rest[i - 1] == k);
            }
        }
        lemma_apply_key_events(extra1, prev, rest);
    } else {
        let k0 = prev[0];
        assert(next[0] == k0);
        let prest = prev.drop_first();
        let nrest = next.drop_first();
        assert(key_events(prev, next) == key_events(prest, nrest));
        assert(strictly_sorted(prest));
        assert(strictly_sorted(nrest));
        assert(!prest.contains(k0)) by {
            if prest.contains(k0) {
                let i = prest.index_of(k0);
                assert(prev[i + 1] == k0);
            }
        }
        assert(!nrest.contains(k0)) by {
            if nrest.contains(k0) {
                let i = nrest.index_of(k0);
                assert(next[i + 1] == k0);
            }
        }
        assert forall|k: u32| prest.contains(k) implies prev.contains(k) by {
            let i = prest.index_of(k);
            assert(prev[i + 1] == k);
        }
        assert forall|k: u32| nrest.contains(k) implies next.contains(k) by {
            let i = nrest.index_of(k);
            assert(next[i + 1] == k);
        }
        let extra1 = extra.insert(k0);
        assert(extra + prev.to_set() =~= extra1 + prest.to_set()) by {
            assert forall|k: u32| prev.contains(k) && k != k0 implies prest.contains(k) by {
                let i = prev.index_of(k);
                assert(i != 0);
                assert(prest[i - 1] == k);
            }
        }
        assert(extra1 + nrest.to_set() =~= extra + next.to_set()) by {
            assert forall|k: u32| next.contains(k) && k != k0 implies nrest.contains(k) by {
                let i = next.index_of(k);
                assert(i != 0);
                assert(nrest[i - 1] == k);
            }
        }
        lemma_apply_key_events(extra1, prest, nrest);
    }
}

/// Replaying the events found between two pressed-key lists, each sorted
/// with every key once, on the keys held in the first, gives exactly the
/// keys held in the second: every key let go is released, every new key
/// pressed, nothing else changes, and no key is pressed while held or
/// released while not held.
pub proof fn law_key_events_replay(prev: Seq<u32>, next: Seq<u32>)
    requires
        strictly_sorted(prev),
        strictly_sorted(next),
    ensures
        apply_key_events(prev.to_set(), key_events(prev, next)) == Some(next.to_set()),
{
    lemma_apply_key_events(Set::empty(), prev, next);
    assert(Set::<u32>::empty() + prev.to_set() =~= prev.to_set());
    assert(Set::<u32>::empty() + next.to_set() =~= next.to_set());
}

/// Find the press and release events between two pressed-key lists.
pub fn diff_keys(prev: &Vec<u32>, next: &Vec<u32>) -> (r: Vec<(bool, u32)>)
    ensures
        r@ == key_events(prev@, next@),
{
    let mut out: Vec<(bool, u32)> = Vec::new();
    let mut i: usize = 0;
    let mut j: usize = 0;
    proof {
        assert(prev@.skip(0) =~= prev@);
        assert(next@.skip(0) =~= next@);
        assert(out@ + key_events(prev@, next@) =~= key_events(prev@, next@));
    }
    while i < prev.len() || j < next.len()
        invariant
            i <= prev@.len(),
            j <= next@.len(),
            out@ + key_events(prev@.skip(i as int), next@.skip(j as int)) == key_events(prev@, next@),
        decreases prev@.len() + next@.len() - i - j,
    {
        let ghost p = prev@.skip(i as int);
        let ghost n = next@.skip(j as int);
        let ghost before = out@;
        if j >= next.len() || (i < prev.len() && prev[i] < next[j]) {
            out.push((true, prev[i]));
            i = i + 1;
            proof {
                assert(p.drop_first() =~= prev@.skip(i as int));
                assert(out@ + key_events(prev@.skip(i as int), n) =~= before + key_events(p, n));
            }
        } else if i >= prev.len() || prev[i] > next[j] {
            out.push((false, next[j]));
            j = j + 1;
            proof {
                assert(n.drop_first() =~= next@.skip(j as int));
                assert(out@ + key_events(p, next@.skip(j as int)) =~= before + key_events(p, n));
            }
        } else {
            i = i + 1;
            j = j + 1;
            proof {
                assert(p.drop_first() =~= prev@.skip(i as int));
                assert(n.drop_first() =~= next@.skip(j as int));
            }
        }
    }
    proof {
        assert(prev@.skip(i as int) =~= Seq::<u32>::empty());
        assert(next@.skip(j as int) =~= Seq::<u32>::empty());
        assert(out@ + Seq::<(bool, u32)>::empty() =~= out@);
    }
    out
}

/// Host (window system) key numbers of the keys the console translates:
/// the letters are numbered from `HOST_KEY_A` in alphabetical order.
pub const HOST_KEY_A: u32 = 10;
/// Host key number of Enter.
pub const HOST_KEY_ENTER: u32 = 69;
/// Host key number of the left Control key.
pub const HOST_KEY_LEFT_CTRL: u32 = 84;

/// Keys as the GUI's keyboard input knows them (those the console sends).
#[derive(Clone, Copy, Debug, PartialEq, Eq, Structural)]
pub enum KeyCode {
    NoKey,
    A,
    B,
    C,
    D,
    E,
    F,
    G,
    H,
    I,
    J,
    K,
    L,
    M,
    N,
    O,
    P,
    Q,
    R,
    S,
    T,
    U,
    V,
    W,
    X,
    Y,
    Z,
    Return,
    LeftCtrl,
}

/// The GUI key for a host key number: the letters, Enter (as Return) and
/// the left Control key; `KeyCode::NoKey` for any other key.
pub open spec fn keycode_of(key: u32) -> KeyCode {
    match key {
        10 => KeyCode::A,
        11 => KeyCode::B,
        12 => KeyCode::C,
        13 => KeyCode::D,
        14 => KeyCode::E,
        15 => KeyCode::F,
        16 => KeyCode::G,
        17 => KeyCode::H,
        18 => KeyCode::I,
        19 => KeyCode::J,
        20 => KeyCode::K,
        21 => KeyCode::L,
        22 => KeyCode::M,
        23 => KeyCode::N,
        24 => KeyCode::O,
        25 => KeyCode::P,
        26 => KeyCode::Q,
        27 => KeyCode::R,
        28 => KeyCode::S,
        29 => KeyCode::T,
        30 => KeyCode::U,
        31 => KeyCode::V,
        32 => KeyCode::W,
        33 => KeyCode::X,
        34 => KeyCode::Y,
        35 => KeyCode::Z,
        69 => KeyCode::Return,
        84 => KeyCode::LeftCtrl,
        _ => KeyCode::NoKey,
    }
}

/// The GUI key each host key is reported as: the host letters, numbered
/// in alphabetical order from `HOST_KEY_A`, are the GUI letters of the same
/// name (the `i`th host letter is the `i`th letter of the alphabet), Enter
/// is Return, the left Control key is LeftCtrl, and every other host key
/// has no GUI key.
pub proof fn law_keycode_table(key: u32)
    ensures
        ({
            let letters = seq![KeyCode::A, KeyCode::B, KeyCode::C, KeyCode::D, KeyCode::E, KeyCode::F, KeyCode::G, KeyCode::H, KeyCode::I, KeyCode::J, KeyCode::K, KeyCode::L, KeyCode::M, KeyCode::N, KeyCode::O, KeyCode::P, KeyCode::Q, KeyCode::R, KeyCode::S, KeyCode::T, KeyCode::U, KeyCode::V, KeyCode::W, KeyCode::X, KeyCode::Y, KeyCode::Z];
            &&& HOST_KEY_A <= key < HOST_KEY_A + 26 ==> keycode_of(key) == letters[key - HOST_KEY_A]
            &&& key == HOST_KEY_ENTER ==> keycode_of(key) == KeyCode::Return
            &&& key == HOST_KEY_LEFT_CTRL ==> keycode_of(key) == KeyCode::LeftCtrl
            &&& !(HOST_KEY_A <= key < HOST_KEY_A + 26) && key != HOST_KEY_ENTER && key != HOST_KEY_LEFT_CTRL
                ==> keycode_of(key) == KeyCode::NoKey
        }),
{
    let letters = seq![KeyCode::A, KeyCode::B, KeyCode::C, KeyCode::D, KeyCode::E, KeyCode::F, KeyCode::G, KeyCode::H, KeyCode::I, KeyCode::J, KeyCode::K, KeyCode::L, KeyCode::M, KeyCode::N, KeyCode::O, KeyCode::P, KeyCode::Q, KeyCode::R, KeyCode::S, KeyCode::T, KeyCode::U, KeyCode::V, KeyCode::W, KeyCode::X, KeyCode::Y, KeyCode::Z];
    if key == 10 {
        assert(letters[0] == KeyCode::A);
    } else if key == 11 {
        assert(letters[1] == KeyCode::B);
    } else if key == 12 {
        assert(letters[2] == KeyCode::C);
    } else if key == 13 {
        assert(letters[3] == KeyCode::D);
    } else if key == 14 {
        assert(letters[4] == KeyCode::E);
    } else if key == 15 {
        assert(letters[5] == KeyCode::F);
    } else if key == 16 {
        assert(letters[6] == KeyCode::G);
    } else if key == 17 {
        assert(letters[7] == KeyCode::H);
    } else if key == 18 {
        assert(letters[8] == KeyCode::I);
    } else if key == 19 {
        assert(letters[9] == KeyCode::J);
    } else if key == 20 {
        assert(letters[10] == KeyCode::K);
    } else if key == 21 {
        assert(letters[11] == KeyCode::L);
    } else if key == 22 {
        assert(letters[12] == KeyCode::M);
    } else if key == 23 {
        assert(letters[13] == KeyCode::N);
    } else if key == 24 {
        assert(letters[14] == KeyCode::O);
    } else if key == 25 {
        assert(letters[15] == KeyCode::P);
    } else if key == 26 {
        assert(letters[16] == KeyCode::Q);
    } else if key == 27 {
        assert(letters[17] == KeyCode::R);
    } else if key == 28 {
        assert(letters[18] == KeyCode::S);
    } else if key == 29 {
        assert(letters[19] == KeyCode::T);
    } else if key == 30 {
        assert(letters[20] == KeyCode::U);
    } else if key == 31 {
        assert(letters[21] == KeyCode::V);
    } else if key == 32 {
        assert(letters[22] == KeyCode::W);
    } else if key == 33 {
        assert(letters[23] == KeyCode::X);
    } else if key == 34 {
        assert(letters[24] == KeyCode::Y);
    } else if key == 35 {
        assert(letters[25] == KeyCode::Z);
    }
}

/// Translate a host key number to the GUI's key code.
pub fn translate_keycode(key: u32) -> (r: KeyCode)
    ensures
        r == keycode_of(key),
{
    match key {
        10 => KeyCode::A,
        11 => KeyCode::B,
        12 => KeyCode::C,
        13 => KeyCode::D,
        14 => KeyCode::E,
        15 => KeyCode::F,
        16 => KeyCode::G,
        17 => KeyCode::H,
        18 => KeyCode::I,
        19 => KeyCode::J,
        20 => KeyCode::K,
        21 => KeyCode::L,
        22 => KeyCode::M,
        23 => KeyCode::N,
        24 => KeyCode::O,
        25 => KeyCode::P,
        26 => KeyCode::Q,
        27 => KeyCode::R,
        28 => KeyCode::S,
        29 => KeyCode::T,
        30 => KeyCode::U,
        31 => KeyCode::V,
        32 => KeyCode::W,
        33 => KeyCode::X,
        34 => KeyCode::Y,
        35 => KeyCode::Z,
        69 => KeyCode::Return,
        84 => KeyCode::LeftCtrl,
        _ => KeyCode::NoKey,
    }
}

/// The events sent to the GUI for a list of host key events: each one
/// whose key translates, in order; the others are dropped.
pub open spec fn gui_events(events: Seq<(bool, u32)>) -> Seq<(bool, KeyCode)>
    decreases events.len(),
{
    if events.len() == 0 {
        Seq::empty()
    } else {
        let rest = gui_events(events.drop_first());
        let k = keycode_of(events[0].1);
        if k == KeyCode::NoKey {
            rest
        } else {
            seq![(events[0].0, k)] + rest
        }
    }
}

/// Translate host key events, dropping those with no GUI key.
pub fn translate_events(events: &Vec<(bool, u32)>) -> (r: Vec<(bool, KeyCode)>)
    ensures
        r@ == gui_events(events@),
{
    let mut out: Vec<(bool, KeyCode)> = Vec::new();
    let mut i: usize = events.len();
    proof {
        assert(events@.skip(i as int) =~= Seq::<(bool, u32)>::empty());
    }
    while i > 0
        invariant
            i <= events@.len(),
            out@ == gui_events(events@.skip(i as int)),
        decreases i,
    {
        i = i - 1;
        let (release, key) = events[i];
        let code = translate_keycode(key);
        proof {
            assert(events@.skip(i as int).drop_first() =~= events@.skip(i + 1));
        }
        match code {
            KeyCode::NoKey => {},
            _ => {
                out.insert(0, (release, code));
                assert(out@ =~= seq![(release, code)] + gui_events(events@.skip(i + 1)));
            },
        }
    }
    proof {
        assert(events@.skip(0) =~= events@);
    }
    out
}

/// Wraps `slice::sort` on the key list: sorts it in ascending order,
/// keeping the same keys.
#[verifier::external_body]
fn sort_keys(keys: &mut Vec<u32>)
    ensures
        final(keys)@.to_multiset() == old(keys)@.to_multiset(),
        forall|i: int, j: int| 0 <= i <= j < final(keys)@.len() ==> final(keys)@[i] <= final(keys)@[j],
{
    keys.sort();
}

/// The keyboard side of the window loop: remembers the keys held at the
/// last frame and turns each frame's pressed-key list into GUI events.
pub struct KeyTracker {
    prev_keys: Vec<u32>,
}

impl KeyTracker {
    /// The keys held at the last frame, sorted.
    pub closed spec fn held(&self) -> Seq<u32> {
        self.prev_keys@
    }

    /// A tracker for which no key is held.
    pub fn new() -> (r: KeyTracker)
        ensures
            r.held() == Seq::<u32>::empty(),
    {
        KeyTracker { prev_keys: Vec::new() }
    }

    /// Take the window's pressed-key list for this frame: returns the GUI
    /// events (release `true`, press `false`) between the last frame's keys
    /// and these, and remembers these, sorted.
    pub fn update(&mut self, keys: Vec<u32>) -> (r: Vec<(bool, KeyCode)>)
        ensures
            final(self).held().to_multiset() == keys@.to_multiset(),
            forall|i: int, j: int| 0 <= i <= j < final(self).held().len() ==> final(self).held()[i] <= final(self).held()[j],
            r@ == gui_events(key_events(old(self).held(), final(self).held())),
            keys@.no_duplicates() ==> strictly_sorted(final(self).held()),
    {
        let ghost given = keys@;
        let mut keys = keys;
        sort_keys(&mut keys);
        proof {
            if given.no_duplicates() {
                given.lemma_multiset_has_no_duplicates();
                keys@.lemma_multiset_has_no_duplicates_conv();
                assert forall|i: int, j: int| 0 <= i < j < keys@.len() implies keys@[i] < keys@[j] by {
                    assert(keys@[i] <= keys@[j]);
                    assert(keys@[i] != keys@[j]);
                }
            }
        }
        let events = diff_keys(&self.prev_keys, &keys);
        let out = translate_events(&events);
        self.prev_keys = keys;
        out
    }
}

/// The GUI keys held when the host keys in `held` are: the translations
/// of those keys that have one.
pub open spec fn gui_held(held: Set<u32>) -> Set<KeyCode> {
    Set::new(|c: KeyCode| c != KeyCode::NoKey && exists|k: u32| held.contains(k) && keycode_of(k) == c)
}

/// The GUI keys held after the GUI keyboard processes press and release
/// events in order; `None` when an event presses a key that is already held
/// or releases one that is not.
pub open spec fn apply_gui_events(held: Set<KeyCode>, events: Seq<(bool, KeyCode)>) -> Option<Set<KeyCode>>
    decreases events.len(),
{
    if events.len() == 0 {
        Some(held)
    } else {
        let (release, k) = events[0];
        if release != held.contains(k) {
            None
        } else {
            let held1 = if release {
                held.remove(k)
            } else {
                held.insert(k)
            };
            apply_gui_events(held1, events.drop_first())
        }
    }
}

/// Distinct host keys never translate to the same GUI key.
pub proof fn lemma_keycode_injective(a: u32, b: u32)
    requires
        keycode_of(a) != KeyCode::NoKey,
        keycode_of(a) == keycode_of(b),
    ensures
        a == b,
{
}

proof fn lemma_gui_events_follow(held: Set<u32>, events: Seq<(bool, u32)>)
    requires
        apply_key_events(held, events) is Some,
    ensures
        apply_gui_events(gui_held(held), gui_events(events)) == Some(gui_held(apply_key_events(held, events)->0)),
    decreases events.len(),
{
    if events.len() > 0 {
        let (release, k) = events[0];
        let c = keycode_of(k);
        let held1 = if release {
            held.remove(k)
        } else {
            held.insert(k)
        };
        assert(apply_key_events(held, events) == apply_key_events(held1, events.drop_first()));
        lemma_gui_events_follow(held1, events.drop_first());
        if c == KeyCode::NoKey {
            assert(gui_events(events) == gui_events(events.drop_first()));
            assert(gui_held(held1) =~= gui_held(held)) by {
                assert forall|d: KeyCode| gui_held(held).contains(d) implies gui_held(held1).contains(d) by {
                    let j = choose|j: u32| held.contains(j) && keycode_of(j) == d;
                    assert(j != k);
                    assert(held1.contains(j));
                }
                assert forall|d: KeyCode| gui_held(held1).contains(d) implies gui_held(held).contains(d) by {
                    let j = choose|j: u32| held1.contains(j) && keycode_of(j) == d;
                    assert(j != k);
                    assert(held.contains(j));
                }
            }
        } else {
            let g = gui_events(events);
            assert(g == seq![(release, c)] + gui_events(events.drop_first()));
            assert(g[0] == (release, c));
            assert(g.drop_first() =~= gui_events(events.drop_first()));
            assert(gui_held(held).contains(c) == held.contains(k)) by {
                if gui_held(held).contains(c) {
                    let j = choose|j: u32| held.contains(j) && keycode_of(j) == c;
                    lemma_keycode_injective(k, j);
                }
            }
            if release {
                assert(gui_held(held1) =~= gui_held(held).remove(c)) by {
                    assert forall|d: KeyCode| gui_held(held).remove(c).contains(d) implies gui_held(held1).contains(d) by {
                        let j = choose|j: u32| held.contains(j) && keycode_of(j) == d;
                        assert(j != k);
                        assert(held1.contains(j));
                    }
                    assert forall|d: KeyCode| gui_held(held1).contains(d) implies gui_held(held).remove(c).contains(d) by {
                        let j = choose|j: u32| held1.contains(j) && keycode_of(j) == d;
                        assert(held.contains(j));
                        if d == c {
                            lemma_keycode_injective(k, j);
                        }
                    }
                }
            } else {
                assert(gui_held(held1) =~= gui_held(held).insert(c)) by {
                    assert forall|d: KeyCode| gui_held(held).insert(c).contains(d) implies gui_held(held1).contains(d) by {
                        if d == c {
                            assert(held1.contains(k));
                        } else {
                            let j = choose|j: u32| held.contains(j) && keycode_of(j) == d;
                            assert(held1.contains(j));
                        }
                    }
                    assert forall|d: KeyCode| gui_held(held1).contains(d) implies gui_held(held).insert(c).contains(d) by {
                        let j = choose|j: u32| held1.contains(j) && keycode_of(j) == d;
                        if j != k {
                            assert(held.contains(j));
                        }
                    }
                }
            }
        }
    }
}

/// What the GUI keyboard sees of one frame: replaying the translated
/// events between two pressed-key lists (each sorted, every key once) on
/// the GUI keys held for the first list gives exactly the GUI keys held for
/// the second, never pressing a held key nor releasing one not held. So
/// over any run of frames, each GUI key is pressed once more than it is
/// released exactly when the last frame holds it.
pub proof fn law_gui_key_events_replay(prev: Seq<u32>, next: Seq<u32>)
    requires
        strictly_sorted(prev),
        strictly_sorted(next),
    ensures
        apply_gui_events(gui_held(prev.to_set()), gui_events(key_events(prev, next))) == Some(gui_held(next.to_set())),
{
    law_key_events_replay(prev, next);
    lemma_gui_events_follow(prev.to_set(), key_events(prev, next));
}

/// The GUI events sent over a run of frames whose pressed-key lists are
/// `frames`, starting from the held list `prev`.
pub open spec fn gui_events_over_frames(prev: Seq<u32>, frames: Seq<Seq<u32>>) -> Seq<(bool, KeyCode)>
    decreases frames.len(),
{
    if frames.len() == 0 {
        Seq::empty()
    } else {
        gui_events(key_events(prev, frames[0])) + gui_events_over_frames(frames[0], frames.drop_first())
    }
}

proof fn lemma_apply_gui_concat(held: Set<KeyCode>, a: Seq<(bool, KeyCode)>, b: Seq<(bool, KeyCode)>)
    requires
        apply_gui_events(held, a) is Some,
    ensures
        apply_gui_events(held, a + b) == apply_gui_events(apply_gui_events(held, a)->0, b),
    decreases a.len(),
{
    if a.len() == 0 {
        assert(a + b =~= b);
    } else {
        let (release, k) = a[0];
        let held1 = if release {
            held.remove(k)
        } else {
            held.insert(k)
        };
        assert((a + b)[0] == a[0]);
        assert((a + b).drop_first() =~= a.drop_first() + b);
        lemma_apply_gui_concat(held1, a.drop_first(), b);
    }
}

/// Over any run of frames, each reporting a pressed-key list with every key
/// once, the GUI keyboard is never told to press a held key or release one
/// not held, and ends up holding exactly the translated keys of the last
/// frame: every GUI key is pressed once more than it is released exactly
/// when the last frame holds it.
pub proof fn law_gui_keys_over_frames(prev: Seq<u32>, frames: Seq<Seq<u32>>)
    requires
        strictly_sorted(prev),
        forall|i: int| 0 <= i < frames.len() ==> strictly_sorted(#[trigger] frames[i]),
    ensures
        apply_gui_events(gui_held(prev.to_set()), gui_events_over_frames(prev, frames)) == Some(
            gui_held((if frames.len() == 0 { prev } else { frames.last() }).to_set()),
        ),
    decreases frames.len(),
{
    if frames.len() == 0 {
    } else {
        let first = gui_events(key_events(prev, frames[0]));
        let rest = frames.drop_first();
        assert(strictly_sorted(frames[0]));
        law_gui_key_events_replay(prev, frames[0]);
        assert forall|i: int| 0 <= i < rest.len() implies strictly_sorted(#[trigger] rest[i]) by {
            assert(rest[i] == frames[i + 1]);
        }
        law_gui_keys_over_frames(frames[0], rest);
        lemma_apply_gui_concat(gui_held(prev.to_set()), first, gui_events_over_frames(frames[0], rest));
        if rest.len() > 0 {
            assert(rest.last() == frames.last());
        }
    }
}

/// What happens to the display state between frames: a blit into the
/// backbuffer (`State::blit_buf`), or the window's check whether to send the
/// buffer (`State::take_dirty`).
#[derive(Clone, Copy, Debug, PartialEq, Eq, Structural)]
pub enum DisplayOp {
    Blit,
    Present,
}

/// The dirty flag after the operations `ops` on a new state: `State::new`
/// starts it set, `blit_buf` sets it and `take_dirty` clears it.
pub open spec fn dirty_after(ops: Seq<DisplayOp>) -> bool {
    if ops.len() == 0 {
        true
    } else {
        match ops.last() {
            DisplayOp::Blit => true,
            DisplayOp::Present => false,
        }
    }
}

/// The window sends the buffer at a `Present` (its `take_dirty` returns
/// true) exactly when it is the first check, or a blit happened since the
/// last one: the initial buffer is sent once, and afterwards a buffer is
/// sent only after a blit.
pub proof fn law_buffer_sent_after_blit(ops: Seq<DisplayOp>, i: int)
    requires
        0 <= i < ops.len(),
        ops[i] == DisplayOp::Present,
    ensures
        dirty_after(ops.take(i)) <==> ((forall|j: int| 0 <= j < i ==> ops[j] != DisplayOp::Present) || exists|j: int|
            0 <= j < i && ops[j] == DisplayOp::Blit && forall|l: int| j < l < i ==> ops[l] != DisplayOp::Present),
{
    if i > 0 {
        let p = ops.take(i);
        assert(p.last() == ops[i - 1]);
        if ops[i - 1] == DisplayOp::Present {
            assert(!(forall|j: int| 0 <= j < i ==> ops[j] != DisplayOp::Present));
            assert forall|j: int| 0 <= j < i && ops[j] == DisplayOp::Blit implies !(forall|l: int|
                j < l < i ==> ops[l] != DisplayOp::Present) by {
                assert(j < i - 1);
                assert(ops[i - 1] == DisplayOp::Present);
            }
        } else {
            assert(ops[i - 1] == DisplayOp::Blit);
            assert(forall|l: int| i - 1 < l < i ==> ops[l] != DisplayOp::Present);
        }
    }
}

/// The key events between two pressed-key lists, each sorted with every
/// key once, are the ascending merge of the two differences: a release for
/// each key of `prev` not in `next`, a press for each key of `next` not in
/// `prev`, each once, in increasing key order, and nothing for a key in
/// both.
pub proof fn law_key_events_merge(prev: Seq<u32>, next: Seq<u32>)
    requires
        strictly_sorted(prev),
        strictly_sorted(next),
    ensures
        ({
            let ev = key_events(prev, next);
            &&& forall|i: int, j: int| 0 <= i < j < ev.len() ==> ev[i].1 < ev[j].1
            &&& forall|i: int| 0 <= i < ev.len() && (#[trigger] ev[i]).0 ==> prev.contains(ev[i].1) && !next.contains(ev[i].1)
            &&& forall|i: int| 0 <= i < ev.len() && !(#[trigger] ev[i]).0 ==> next.contains(ev[i].1) && !prev.contains(ev[i].1)
            &&& forall|k: u32| prev.contains(k) && !next.contains(k) ==> ev.contains((true, k))
            &&& forall|k: u32| next.contains(k) && !prev.contains(k) ==> ev.contains((false, k))
        }),
    decreases prev.len() + next.len(),
{
    let ev = key_events(prev, next);
    if prev.len() == 0 && next.len() == 0 {
    } else if next.len() == 0 || (prev.len() > 0 && prev[0] < next[0]) {
        let p = prev[0];
        let rest = prev.drop_first();
        assert(strictly_sorted(rest));
        law_key_events_merge(rest, next);
        let er = key_events(rest, next);
        assert(ev == seq![(true, p)] + er);
        assert forall|k: u32| rest.contains(k) implies prev.contains(k) && p < k by {
            let i = rest.index_of(k);
            assert(prev[i + 1] == k);
        }
        assert forall|k: u32| next.contains(k) implies p < k by {
            let i = next.index_of(k);
            if i > 0 {
                assert(next[0] < next[i]);
            }
        }
        assert(!next.contains(p));
        assert forall|k: u32| prev.contains(k) && k != p implies rest.contains(k) by {
            let i = prev.index_of(k);
            assert(i != 0);
            assert(rest[i - 1] == k);
        }
        assert forall|i: int| 0 <= i < er.len() implies p < (#[trigger] er[i]).1 by {
            if er[i].0 {
                assert(rest.contains(er[i].1));
            } else {
                assert(next.contains(er[i].1));
            }
        }
        assert forall|i: int, j: int| 0 <= i < j < ev.len() implies ev[i].1 < ev[j].1 by {
            if i == 0 {
                assert(ev[j] == er[j - 1]);
            } else {
                assert(ev[i] == er[i - 1] && ev[j] == er[j - 1]);
            }
        }
        assert forall|i: int| 0 <= i < ev.len() && (#[trigger] ev[i]).0 implies prev.contains(ev[i].1) && !next.contains(ev[i].1) by {
            if i > 0 {
                assert(ev[i] == er[i - 1]);
            }
        }
        assert forall|i: int| 0 <= i < ev.len() && !(#[trigger] ev[i]).0 implies next.contains(ev[i].1) && !prev.contains(ev[i].1) by {
            assert(i > 0);
            assert(ev[i] == er[i - 1]);
            assert(!rest.contains(ev[i].1));
            assert(ev[i].1 != p);
        }
        assert forall|k: u32| prev.contains(k) && !next.contains(k) implies ev.contains((true, k)) by {
            if k == p {
                assert(ev[0] == (true, k));
            } else {
                assert(er.contains((true, k)));
                let i = er.index_of((true, k));
                assert(ev[i + 1] == (true, k));
            }
        }
        assert forall|k: u32| next.contains(k) && !prev.contains(k) implies ev.contains((false, k)) by {
            assert(!rest.contains(k));
            assert(er.contains((false, k)));
            let i = er.index_of((false, k));
            assert(ev[i + 1] == (false, k));
        }
    } else if prev.len() == 0 || prev[0] > next[0] {
        let n = next[0];
        let rest = next.drop_first();
        assert(strictly_sorted(rest));
        law_key_events_merge(prev, rest);
        let er = key_events(prev, rest);
        assert(ev == seq![(false, n)] + er);
        assert forall|k: u32| rest.contains(k) implies next.contains(k) && n < k by {
            let i = rest.index_of(k);
            assert(next[i + 1] == k);
        }
        assert forall|k: u32| prev.contains(k) implies n < k by {
            let i = prev.index_of(k);
            if i > 0 {
                assert(prev[0] < prev[i]);
            }
        }
        assert(!prev.contains(n));
        assert forall|k: u32| next.contains(k) && k != n implies rest.contains(k) by {
            let i = next.index_of(k);
            assert(i != 0);
            assert(rest[i - 1] == k);
        }
        assert forall|i: int| 0 <= i < er.len() implies n < (#[trigger] er[i]).1 by {
            if er[i].0 {
                assert(prev.contains(er[i].1));
            } else {
                assert(rest.contains(er[i].1));
            }
        }
        assert forall|i: int, j: int| 0 <= i < j < ev.len() implies ev[i].1 < ev[j].1 by {
            if i == 0 {
                assert(ev[j] == er[j - 1]);
            } else {
                assert(ev[i] == er[i - 1] && ev[j] == er[j - 1]);
            }
        }
        assert forall|i: int| 0 <= i < ev.len() && (#[trigger] ev[i]).0 implies prev.contains(ev[i].1) && !next.contains(ev[i].1) by {
            assert(i > 0);
            assert(ev[i] == er[i - 1]);
            assert(!rest.contains(ev[i].1));
            assert(ev[i].1 != n);
        }
        assert forall|i: int| 0 <= i < ev.len() && !(#[trigger] ev[i]).0 implies next.contains(ev[i].1) && !prev.contains(ev[i].1) by {
            if i > 0 {
                assert(ev[i] == er[i - 1]);
            }
        }
        assert forall|k: u32| next.contains(k) && !prev.contains(k) implies ev.contains((false, k)) by {
            if k == n {
                assert(ev[0] == (false, k));
            } else {
                assert(er.contains((false, k)));
                let i = er.index_of((false, k));
                assert(ev[i + 1] == (false, k));
            }
        }
        assert forall|k: u32| prev.contains(k) && !next.contains(k) implies ev.contains((true, k)) by {
            assert(!rest.contains(k));
            assert(er.contains((true, k)));
            let i = er.index_of((true, k));
            assert(ev[i + 1] == (true, k));
        }
    } else {
        let k0 = prev[0];
        let pr = prev.drop_first();
        let nr = next.drop_first();
        assert(strictly_sorted(pr));
        assert(strictly_sorted(nr));
        law_key_events_merge(pr, nr);
        assert(ev == key_events(pr, nr));
        assert forall|k: u32| pr.contains(k) implies prev.contains(k) && k0 < k by {
            let i = pr.index_of(k);
            assert(prev[i + 1] == k);
        }
        assert forall|k: u32| nr.contains(k) implies next.contains(k) && k0 < k by {
            let i = nr.index_of(k);
            assert(next[i + 1] == k);
        }
        assert forall|k: u32| prev.contains(k) && k != k0 implies pr.contains(k) by {
            let i = prev.index_of(k);
            assert(i != 0);
            assert(pr[i - 1] == k);
        }
        assert forall|k: u32| next.contains(k) && k != k0 implies nr.contains(k) by {
            let i = next.index_of(k);
            assert(i != 0);
            assert(nr[i - 1] == k);
        }
        assert(!pr.contains(k0));
        assert(!nr.contains(k0));
    }
}

/// How many more times `c` is pressed than released in `events`.
pub open spec fn net_presses(events: Seq<(bool, KeyCode)>, c: KeyCode) -> int
    decreases events.len(),
{
    if events.len() == 0 {
        0
    } else {
        let here: int = if events[0].1 == c {
            if events[0].0 {
                -1
            } else {
                1
            }
        } else {
            0
        };
        here + net_presses(events.drop_first(), c)
    }
}

proof fn lemma_net_presses(held: Set<KeyCode>, events: Seq<(bool, KeyCode)>, c: KeyCode)
    requires
        apply_gui_events(held, events) is Some,
    ensures
        net_presses(events, c) == (if apply_gui_events(held, events)->0.contains(c) { 1int } else { 0int }) - (
        if held.contains(c) { 1int } else { 0int }),
    decreases events.len(),
{
    if events.len() > 0 {
        let (release, k) = events[0];
        let held1 = if release {
            held.remove(k)
        } else {
            held.insert(k)
        };
        lemma_net_presses(held1, events.drop_first(), c);
    }
}

/// A GUI key is held for a set of host keys exactly when the host key that
/// translates to it is in the set.
pub proof fn lemma_gui_held_contains(held: Set<u32>, k: u32)
    requires
        keycode_of(k) != KeyCode::NoKey,
    ensures
        gui_held(held).contains(keycode_of(k)) == held.contains(k),
{
    if gui_held(held).contains(keycode_of(k)) {
        let j = choose|j: u32| held.contains(j) && keycode_of(j) == keycode_of(k);
        lemma_keycode_injective(k, j);
    }
}

/// Over a run of frames starting with no key held, each frame reporting its
/// pressed keys once each, every host key `k` with a GUI key is pressed
/// (as that GUI key) exactly once more than it is released when the last
/// frame holds it, and as often as it is released otherwise; and no GUI key
/// is ever released while not held nor pressed while held.
pub proof fn law_gui_key_counts(frames: Seq<Seq<u32>>, k: u32)
    requires
        frames.len() >= 1,
        forall|i: int| 0 <= i < frames.len() ==> strictly_sorted(#[trigger] frames[i]),
        keycode_of(k) != KeyCode::NoKey,
    ensures
        apply_gui_events(Set::empty(), gui_events_over_frames(Seq::empty(), frames)) is Some,
        net_presses(gui_events_over_frames(Seq::empty(), frames), keycode_of(k)) == (if frames.last().contains(k) { 1int } else { 0int }),
{
    let none: Seq<u32> = Seq::empty();
    assert(strictly_sorted(none));
    law_gui_keys_over_frames(none, frames);
    assert(none.to_set() =~= Set::<u32>::empty());
    assert(gui_held(none.to_set()) =~= Set::<KeyCode>::empty());
    let ev = gui_events_over_frames(none, frames);
    lemma_net_presses(Set::empty(), ev, keycode_of(k));
    lemma_gui_held_contains(frames.last().to_set(), k);
}

} // verus!
