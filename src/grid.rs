//! A sparse map from hex cells to the paint they hold.
use vstd::prelude::*;
use crate::color::Color;
use crate::hex::{abs, fits_i32, Hex};

verus! {

/// The cells of a list of entries, in order.
pub open spec fn keys_of(s: Seq<(Hex, Color)>) -> Seq<Hex> {
    s.map_values(|e: (Hex, Color)| e.0)
}

/// The map that a list of entries with distinct cells describes.
pub open spec fn entries_map(s: Seq<(Hex, Color)>) -> Map<Hex, Color> {
    Map::new(|k: Hex| keys_of(s).contains(k), |k: Hex| s[keys_of(s).index_of(k)].1)
}

/// A set of cells, each holding one color.
///
/// Every cell appears at most once; painting a cell overwrites its color.
/// `cells` returns a copy of the entries in no particular order, so painting
/// after it leaves the copy as it was.
pub struct Grid {
    entries: Vec<(Hex, Color)>,
}

impl View for Grid {
    type V = Map<Hex, Color>;

    closed spec fn view(&self) -> Map<Hex, Color> {
        entries_map(self.entries@)
    }
}

proof fn lemma_lookup(s: Seq<(Hex, Color)>, i: int)
    requires
        keys_of(s).no_duplicates(),
        0 <= i < s.len(),
    ensures
        entries_map(s).contains_key(s[i].0),
        entries_map(s)[s[i].0] == s[i].1,
{
    let ks = keys_of(s);
    assert(ks[i] == s[i].0);
    assert(ks.contains(s[i].0));
    let j = ks.index_of(s[i].0);
    assert(ks[j] == s[j].0);
}

proof fn lemma_dom_len(s: Seq<(Hex, Color)>)
    requires
        keys_of(s).no_duplicates(),
    ensures
        entries_map(s).dom() == keys_of(s).to_set(),
        entries_map(s).dom().finite(),
        entries_map(s).dom().len() == s.len(),
{
    assert(entries_map(s).dom() =~= keys_of(s).to_set());
    keys_of(s).unique_seq_to_set();
}

proof fn lemma_push(s: Seq<(Hex, Color)>, k: Hex, c: Color)
    requires
        keys_of(s).no_duplicates(),
        !keys_of(s).contains(k),
    ensures
        keys_of(s.push((k, c))) == keys_of(s).push(k),
        keys_of(s.push((k, c))).no_duplicates(),
        entries_map(s.push((k, c))) == entries_map(s).insert(k, c),
{
    let t = s.push((k, c));
    assert(keys_of(t) =~= keys_of(s).push(k));
    assert forall|i: int, j: int|
        0 <= i < t.len() && 0 <= j < t.len() && i != j implies keys_of(t)[i] != keys_of(t)[j] by {
        if i < s.len() && j < s.len() {
            assert(keys_of(t)[i] == keys_of(s)[i]);
            assert(keys_of(t)[j] == keys_of(s)[j]);
        } else if i < s.len() {
            assert(keys_of(t)[i] == keys_of(s)[i]);
        } else {
            assert(keys_of(t)[j] == keys_of(s)[j]);
        }
    }
    assert forall|x: Hex| #[trigger] entries_map(t).contains_key(x) <==> entries_map(s).insert(k, c).contains_key(x) by {
        if keys_of(s).contains(x) {
            let i = keys_of(s).index_of(x);
            assert(keys_of(t)[i] == x);
        }
        if keys_of(t).contains(x) && x != k {
            let i = keys_of(t).index_of(x);
            assert(i < s.len());
            assert(keys_of(s)[i] == x);
        }
        if x == k {
            assert(keys_of(t)[s.len() as int] == k);
        }
    }
    assert forall|x: Hex| #[trigger] entries_map(t).contains_key(x) implies entries_map(t)[x] == entries_map(s).insert(k, c)[x] by {
        if x == k {
            lemma_lookup(t, s.len() as int);
        } else {
            let i = keys_of(s).index_of(x);
            lemma_lookup(s, i);
            lemma_lookup(t, i);
        }
    }
    assert(entries_map(t) =~= entries_map(s).insert(k, c));
}

proof fn lemma_update(s: Seq<(Hex, Color)>, i: int, c: Color)
    requires
        keys_of(s).no_duplicates(),
        0 <= i < s.len(),
    ensures
        keys_of(s.update(i, (s[i].0, c))) == keys_of(s),
        entries_map(s.update(i, (s[i].0, c))) == entries_map(s).insert(s[i].0, c),
{
    let t = s.update(i, (s[i].0, c));
    assert(keys_of(t) =~= keys_of(s));
    assert forall|x: Hex| #[trigger] entries_map(t).contains_key(x) implies entries_map(t)[x] == entries_map(s).insert(s[i].0, c)[x] by {
        assert(keys_of(s).contains(x));
        let j = keys_of(s).index_of(x);
        assert(keys_of(s)[j] == x);
        lemma_lookup(s, j);
        lemma_lookup(t, j);
        if j != i {
            assert(keys_of(s)[i] != keys_of(s)[j]);
            assert(t[j] == s[j]);
        }
    }
    lemma_lookup(s, i);
    assert(entries_map(t) =~= entries_map(s).insert(s[i].0, c));
}


/// The cells of row `q` whose `r` lies in `lo..=hi`.
pub open spec fn row_set(q: int, lo: int, hi: int) -> Set<Hex> {
    Set::new(|k: Hex| k.q == q && lo <= k.r <= hi)
}

/// Number of integers in `lo..=hi`.
pub open spec fn span(lo: int, hi: int) -> int {
    if lo <= hi {
        hi - lo + 1
    } else {
        0
    }
}

/// Every cell of `cells`, each holding the transparent color.
pub open spec fn blank(cells: Set<Hex>) -> Map<Hex, Color> {
    cells.mk_map(|k: Hex| Color::transparent_spec())
}

/// The cells within cube distance `radius` of `center`.
pub open spec fn hex_region(center: Hex, radius: int) -> Set<Hex> {
    Set::new(|k: Hex| k.distance_spec(center) <= radius)
}

/// The cells with `q` in `min.q..=max.q` and `r` in `min.r..=max.r`.
pub open spec fn rhombus_region(min: Hex, max: Hex) -> Set<Hex> {
    Set::new(|k: Hex| min.q <= k.q <= max.q && min.r <= k.r <= max.r)
}

/// The cells with `q` in `min.q..=min.q + size` and `r` in
/// `min.r..=min.r + size - q`.
pub open spec fn triangle_region(min: Hex, size: int) -> Set<Hex> {
    Set::new(|k: Hex| min.q <= k.q <= min.q + size && min.r <= k.r <= min.r + size - k.q)
}

/// Number of cells in the first rows of a hexagon of radius `n`: the rows
/// with offsets `-n..k` from the center, row `j` holding `2n + 1 - |j|` cells.
pub open spec fn hex_rows(n: int, k: int) -> int
    decreases k + n,
{
    if k <= -n {
        0
    } else {
        hex_rows(n, k - 1) + 2 * n + 1 - abs(k - 1)
    }
}

proof fn lemma_hex_rows(n: int, k: int)
    requires
        n >= 0,
        -n <= k <= n + 1,
    ensures
        k <= 0 ==> 2 * hex_rows(n, k) == (k + n) * (3 * n + 1 + k),
        k >= 0 ==> 2 * hex_rows(n, k) == n * (3 * n + 1) + 2 * k * (2 * n + 1) - k * (k - 1),
    decreases k + n,
{
    if k <= -n {
        assert(hex_rows(n, k) == 0);
        assert((k + n) * (3 * n + 1 + k) == 0) by (nonlinear_arith)
            requires k + n == 0;
        if k == 0 {
            assert(n * (3 * n + 1) + 2 * k * (2 * n + 1) - k * (k - 1) == 0) by (nonlinear_arith)
                requires k == 0, n == 0;
        }
    } else {
        lemma_hex_rows(n, k - 1);
        let h = hex_rows(n, k - 1);
        assert(hex_rows(n, k) == h + 2 * n + 1 - abs(k - 1));
        if k == 0 {
            assert(n * (3 * n + 1) + 2 * k * (2 * n + 1) - k * (k - 1) == (k + n) * (3 * n + 1 + k))
                by (nonlinear_arith)
                requires k == 0;
        }
        if k <= 0 {
            assert(2 * (h + 2 * n + 1 - (1 - k)) == (k + n) * (3 * n + 1 + k)) by (nonlinear_arith)
                requires 2 * h == (k - 1 + n) * (3 * n + 1 + k - 1);
        } else {
            assert(2 * (h + 2 * n + 1 - (k - 1)) == n * (3 * n + 1) + 2 * k * (2 * n + 1) - k * (k - 1))
                by (nonlinear_arith)
                requires 2 * h == n * (3 * n + 1) + 2 * (k - 1) * (2 * n + 1) - (k - 1) * (k - 2);
        }
    }
}


proof fn lemma_blank_union(a: Set<Hex>, b: Set<Hex>)
    ensures
        blank(a).union_prefer_right(blank(b)) == blank(a.union(b)),
{
    assert(blank(a).union_prefer_right(blank(b)) =~= blank(a.union(b)));
}

/// Whether `(q, r)` is a cell of the triangle that `make_triangle(min, size)`
/// fills.
pub open spec fn triangle_cell(min: Hex, size: int, q: int, r: int) -> bool {
    min.q <= q <= min.q + size && min.r <= r <= min.r + size - q
}

/// Appends the cells of row `q` with `r` in `lo..=hi`, each transparent.
fn push_row(entries: &mut Vec<(Hex, Color)>, q: i32, lo: i64, hi: i64)
    requires
        keys_of(old(entries)@).no_duplicates(),
        forall|i: int| 0 <= i < old(entries)@.len() ==> old(entries)@[i].0.q != q,
        lo <= hi ==> fits_i32(lo as int) && fits_i32(hi as int),
    ensures
        keys_of(final(entries)@).no_duplicates(),
        final(entries)@.len() == old(entries)@.len() + span(lo as int, hi as int),
        forall|i: int| 0 <= i < old(entries)@.len() ==> final(entries)@[i] == old(entries)@[i],
        forall|i: int|
            old(entries)@.len() <= i < final(entries)@.len() ==> (#[trigger] final(entries)@[i]).0.q
                == q && lo <= final(entries)@[i].0.r <= hi
                && final(entries)@[i].1 == Color::transparent_spec(),
        entries_map(final(entries)@) == entries_map(old(entries)@).union_prefer_right(
            blank(row_set(q as int, lo as int, hi as int)),
        ),
{
    let ghost start = entries@;
    let mut r: i64 = lo;
    assert(entries_map(entries@) =~= entries_map(start).union_prefer_right(
        blank(row_set(q as int, lo as int, r - 1)),
    ));
    while r <= hi
        invariant
            lo <= r,
            lo <= hi ==> r <= hi + 1,
            lo > hi ==> r == lo,
            lo <= hi ==> fits_i32(lo as int) && fits_i32(hi as int),
            keys_of(entries@).no_duplicates(),
            entries@.len() == start.len() + (r - lo),
            forall|i: int| 0 <= i < start.len() ==> entries@[i] == start[i],
            forall|i: int| 0 <= i < start.len() ==> start[i].0.q != q,
            forall|i: int|
                start.len() <= i < entries@.len() ==> (#[trigger] entries@[i]).0.q == q
                    && lo <= entries@[i].0.r < r
                    && entries@[i].1 == Color::transparent_spec(),
            entries_map(entries@) == entries_map(start).union_prefer_right(
                blank(row_set(q as int, lo as int, r - 1)),
            ),
        decreases hi + 1 - r,
    {
        let key = Hex::new(q, r as i32);
        proof {
            assert(!keys_of(entries@).contains(key)) by {
                if keys_of(entries@).contains(key) {
                    let j = keys_of(entries@).index_of(key);
                    assert(entries@[j].0 == key);
                    if j < start.len() {
                        assert(entries@[j] == start[j]);
                        assert(start[j].0.q != q);
                    } else {
                        assert(entries@[j].0.q == q);
                        assert(entries@[j].0.r < r);
                    }
                }
            }
            lemma_push(entries@, key, Color::transparent_spec());
        }
        entries.push((key, Color::transparent()));
        r = r + 1;
        assert(entries_map(entries@) =~= entries_map(start).union_prefer_right(
            blank(row_set(q as int, lo as int, r - 1)),
        ));
    }
}

impl Grid {
    /// The entries hold distinct cells.
    pub closed spec fn wf(&self) -> bool {
        keys_of(self.entries@).no_duplicates()
    }

    /// All cells within cube distance `radius` of `center`, each transparent.
    ///
    /// A negative radius gives an empty grid; a radius `n >= 0` gives
    /// `3n^2 + 3n + 1` cells.
    pub fn make_hex(center: Hex, radius: i32) -> (g: Grid)
        requires
            radius >= 0 ==> fits_i32(center.q - radius) && fits_i32(center.q + radius) && fits_i32(
                center.r - radius,
            ) && fits_i32(center.r + radius),
        ensures
            g.wf(),
            g@ == blank(hex_region(center, radius as int)),
            radius >= 0 ==> g@.len() == 3 * radius * radius + 3 * radius + 1,
    {
        let n: i64 = radius as i64;
        let mut entries: Vec<(Hex, Color)> = Vec::new();
        let mut dq: i64 = -n;
        proof {
            assert(entries_map(entries@) =~= blank(
                Set::new(|k: Hex| k.distance_spec(center) <= n && k.q < center.q + dq),
            ));
        }
        while dq <= n
            invariant
                n == radius,
                radius >= 0 ==> fits_i32(center.q - radius) && fits_i32(center.q + radius)
                    && fits_i32(center.r - radius) && fits_i32(center.r + radius),
                -n <= dq,
                n >= 0 ==> dq <= n + 1,
                n < 0 ==> dq == -n,
                keys_of(entries@).no_duplicates(),
                forall|i: int| 0 <= i < entries@.len() ==> (#[trigger] entries@[i]).0.q < center.q + dq,
                entries_map(entries@) == blank(
                    Set::new(|k: Hex| k.distance_spec(center) <= n && k.q < center.q + dq),
                ),
                n >= 0 ==> entries@.len() == hex_rows(n as int, dq as int),
            decreases n + 1 - dq,
        {
            let lo: i64 = center.r as i64 + if dq < 0 { -n - dq } else { -n };
            let hi: i64 = center.r as i64 + if dq < 0 { n } else { n - dq };
            let ghost before = entries@;
            push_row(&mut entries, (center.q as i64 + dq) as i32, lo, hi);
            proof {
                let done = Set::new(|k: Hex| k.distance_spec(center) <= n && k.q < center.q + dq);
                let next = Set::new(|k: Hex| k.distance_spec(center) <= n && k.q < center.q + dq + 1);
                lemma_blank_union(done, row_set(center.q + dq, lo as int, hi as int));
                assert(done.union(row_set(center.q + dq, lo as int, hi as int)) =~= next);
                assert(hex_rows(n as int, dq + 1) == hex_rows(n as int, dq as int) + 2 * n + 1 - abs(
                    dq as int,
                ));
            }
            dq = dq + 1;
        }
        proof {
            assert(Set::new(|k: Hex| k.distance_spec(center) <= n && k.q < center.q + dq)
                =~= hex_region(center, radius as int));
            lemma_dom_len(entries@);
            if n >= 0 {
                lemma_hex_rows(n as int, n + 1);
                assert(2 * (3 * n * n + 3 * n + 1) == n * (3 * n + 1) + 2 * (n + 1) * (2 * n + 1) - (n
                    + 1) * n) by (nonlinear_arith);
            }
        }
        Grid { entries }
    }

    /// All cells with `q` in `min.q..=max.q` and `r` in `min.r..=max.r`, each
    /// transparent.
    pub fn make_rhombus(min: Hex, max: Hex) -> (g: Grid)
        ensures
            g.wf(),
            g@ == blank(rhombus_region(min, max)),
            min.q <= max.q && min.r <= max.r ==> g@.len() == (max.q - min.q + 1) * (max.r - min.r + 1),
    {
        let mut entries: Vec<(Hex, Color)> = Vec::new();
        let mut q: i64 = min.q as i64;
        let ghost w = span(min.r as int, max.r as int);
        proof {
            assert(entries_map(entries@) =~= blank(
                Set::new(|k: Hex| min.q <= k.q < q && min.r <= k.r <= max.r),
            ));
        }
        while q <= max.q as i64
            invariant
                min.q <= q,
                min.q <= max.q ==> q <= max.q + 1,
                min.q > max.q ==> q == min.q,
                keys_of(entries@).no_duplicates(),
                forall|i: int| 0 <= i < entries@.len() ==> (#[trigger] entries@[i]).0.q < q,
                entries_map(entries@) == blank(
                    Set::new(|k: Hex| min.q <= k.q < q && min.r <= k.r <= max.r),
                ),
                w == span(min.r as int, max.r as int),
                entries@.len() == (q - min.q) * w,
            decreases max.q + 1 - q,
        {
            push_row(&mut entries, q as i32, min.r as i64, max.r as i64);
            proof {
                let done = Set::new(|k: Hex| min.q <= k.q < q && min.r <= k.r <= max.r);
                let next = Set::new(|k: Hex| min.q <= k.q < q + 1 && min.r <= k.r <= max.r);
                lemma_blank_union(done, row_set(q as int, min.r as int, max.r as int));
                assert(done.union(row_set(q as int, min.r as int, max.r as int)) =~= next);
                assert((q + 1 - min.q) * w == (q - min.q) * w + w) by (nonlinear_arith);
            }
            q = q + 1;
        }
        proof {
            assert(Set::new(|k: Hex| min.q <= k.q < q && min.r <= k.r <= max.r) =~= rhombus_region(
                min,
                max,
            ));
            lemma_dom_len(entries@);
        }
        Grid { entries }
    }

    /// The cells with `q` in `min.q..=min.q + size` and, for each such `q`,
    /// `r` in `min.r..=min.r + size - q`, each transparent.
    ///
    /// The bound on `r` shrinks with `q` itself, not with `q - min.q`: the
    /// region is a right triangle of side `size` only where `min.q == 0`.
    pub fn make_triangle(min: Hex, size: i32) -> (g: Grid)
        requires
            forall|q: int, r: int| #[trigger] triangle_cell(min, size as int, q, r) ==> fits_i32(q) && fits_i32(r),
        ensures
            g.wf(),
            g@ == blank(triangle_region(min, size as int)),
    {
        let mut entries: Vec<(Hex, Color)> = Vec::new();
        let last: i64 = min.q as i64 + size as i64;
        let mut q: i64 = min.q as i64;
        proof {
            assert(entries_map(entries@) =~= blank(
                Set::new(|k: Hex| triangle_cell(min, size as int, k.q as int, k.r as int) && k.q < q),
            ));
        }
        while q <= last
            invariant
                last == min.q + size,
                forall|q: int, r: int| #[trigger] triangle_cell(min, size as int, q, r) ==> fits_i32(q) && fits_i32(r),
                min.q <= q,
                min.q <= last ==> q <= last + 1,
                min.q > last ==> q == min.q,
                keys_of(entries@).no_duplicates(),
                forall|i: int| 0 <= i < entries@.len() ==> (#[trigger] entries@[i]).0.q < q,
                entries_map(entries@) == blank(
                    Set::new(|k: Hex| triangle_cell(min, size as int, k.q as int, k.r as int) && k.q < q),
                ),
            decreases last + 1 - q,
        {
            let lo: i64 = min.r as i64;
            let hi: i64 = min.r as i64 + size as i64 - q;
            let done = Ghost(Set::new(|k: Hex| triangle_cell(min, size as int, k.q as int, k.r as int) && k.q < q));
            let next = Ghost(Set::new(|k: Hex| triangle_cell(min, size as int, k.q as int, k.r as int) && k.q < q + 1));
            if lo <= hi {
                proof {
                    assert(triangle_cell(min, size as int, q as int, lo as int));
                    assert(triangle_cell(min, size as int, q as int, hi as int));
                }
                push_row(&mut entries, q as i32, lo, hi);
                proof {
                    lemma_blank_union(done@, row_set(q as int, lo as int, hi as int));
                    assert(done@.union(row_set(q as int, lo as int, hi as int)) =~= next@);
                }
            } else {
                assert(done@ =~= next@);
            }
            q = q + 1;
        }
        proof {
            assert(Set::new(|k: Hex| triangle_cell(min, size as int, k.q as int, k.r as int) && k.q < q)
                =~= triangle_region(min, size as int));
        }
        Grid { entries }
    }

    /// An empty grid.
    pub fn new() -> (g: Grid)
        ensures
            g.wf(),
            g@ == Map::<Hex, Color>::empty(),
    {
        let g = Grid { entries: Vec::new() };
        assert(g@ =~= Map::<Hex, Color>::empty());
        g
    }

    /// Number of cells.
    pub fn len(&self) -> (n: usize)
        requires
            self.wf(),
        ensures
            n == self@.dom().len(),
            self@.dom().finite(),
    {
        proof {
            lemma_dom_len(self.entries@);
        }
        self.entries.len()
    }

    /// Sets the color of `cell`, adding the cell if the grid does not hold it.
    pub fn paint_cell(&mut self, cell: Hex, color: Color)
        requires
            old(self).wf(),
        ensures
            final(self).wf(),
            final(self)@ == old(self)@.insert(cell, color),
    {
        let n = self.entries.len();
        let mut i: usize = 0;
        while i < n
            invariant
                n == self.entries.len(),
                0 <= i <= n,
                self.entries@ == old(self).entries@,
                keys_of(self.entries@).no_duplicates(),
                forall|j: int| 0 <= j < i ==> self.entries@[j].0 != cell,
            decreases n - i,
        {
            if self.entries[i].0 == cell {
                proof {
                    lemma_update(self.entries@, i as int, color);
                }
                self.entries.set(i, (cell, color));
                return;
            }
            i = i + 1;
        }
        proof {
            assert(!keys_of(self.entries@).contains(cell)) by {
                if keys_of(self.entries@).contains(cell) {
                    let j = keys_of(self.entries@).index_of(cell);
                    assert(self.entries@[j].0 == cell);
                }
            }
            lemma_push(self.entries@, cell, color);
        }
        self.entries.push((cell, color));
    }

    /// The cells with their colors, each cell once, in no particular order.
    pub fn cells(&self) -> (v: Vec<(Hex, Color)>)
        requires
            self.wf(),
        ensures
            keys_of(v@).no_duplicates(),
            entries_map(v@) == self@,
    {
        let mut v: Vec<(Hex, Color)> = Vec::new();
        let n = self.entries.len();
        let mut i: usize = 0;
        while i < n
            invariant
                n == self.entries.len(),
                0 <= i <= n,
                v@ == self.entries@.subrange(0, i as int),
            decreases n - i,
        {
            v.push(self.entries[i]);
            i = i + 1;
            assert(v@ =~= self.entries@.subrange(0, i as int));
        }
        assert(v@ =~= self.entries@);
        v
    }
}

impl Default for Grid {
    /// An empty grid.
    fn default() -> (g: Grid)
        ensures
            g.wf(),
            g@ == Map::<Hex, Color>::empty(),
    {
        Grid::new()
    }
}

/// A hexagon of radius zero is its center alone.
pub proof fn lemma_hex_radius_zero(center: Hex)
    ensures
        hex_region(center, 0) == set![center],
        blank(hex_region(center, 0)).len() == 1,
{
    assert forall|k: Hex| #[trigger] hex_region(center, 0).contains(k) implies k == center by {
        assert(k.q == center.q && k.r == center.r);
    }
    assert(hex_region(center, 0) =~= set![center]);
    assert(blank(hex_region(center, 0)).dom() =~= set![center]);
}

/// Painting a cell a second time with the same color changes nothing: the
/// cells and their colors are those after the first paint. Painting touches
/// no other cell.
pub proof fn lemma_paint_idempotent(g: Grid, cell: Hex, color: Color)
    requires
        g.wf(),
    ensures
        g@.insert(cell, color).insert(cell, color) == g@.insert(cell, color),
        forall|k: Hex|
            k != cell ==> (#[trigger] g@.insert(cell, color).contains_key(k) == g@.contains_key(k)
                && g@.insert(cell, color)[k] == g@[k]),
{
    assert(g@.insert(cell, color).insert(cell, color) =~= g@.insert(cell, color));
}

/// Painting a cell with one color and then another leaves the cell with the
/// second color and the same cells as painting the second color alone.
pub proof fn lemma_paint_overwrites(g: Grid, cell: Hex, first: Color, second: Color)
    requires
        g.wf(),
    ensures
        g@.insert(cell, first).insert(cell, second) == g@.insert(cell, second),
        g@.insert(cell, first).insert(cell, second)[cell] == second,
{
    assert(g@.insert(cell, first).insert(cell, second) =~= g@.insert(cell, second));
}

} // verus!
