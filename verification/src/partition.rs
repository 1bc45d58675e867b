//! How a range of elements is cut into pieces: fixed-size pieces, evenly
//! sized pieces and sliding windows, stated over plain sequences.

use vstd::prelude::*;

verus! {

/// The smaller of two integers.
pub open spec fn min(a: int, b: int) -> int {
    if a <= b {
        a
    } else {
        b
    }
}

/// Number of pieces when `len` elements are cut into pieces of `size`
/// elements: `len / size`, rounded up.
pub open spec fn sized_count(len: nat, size: nat) -> nat {
    if size == 0 {
        0
    } else {
        ((len + size - 1) / (size as int)) as nat
    }
}

/// Position at which piece `i` of a fixed-size cut begins.
pub open spec fn sized_bound(len: nat, size: nat, i: int) -> int {
    min(i * size, len as int)
}

/// The pieces of `s` when cut into consecutive runs of `size` elements; the
/// last piece holds what is left and may be shorter.
pub open spec fn sized_pieces<T>(s: Seq<T>, size: nat) -> Seq<Seq<T>> {
    Seq::new(
        sized_count(s.len(), size),
        |i: int| s.subrange(sized_bound(s.len(), size, i), sized_bound(s.len(), size, i + 1)),
    )
}

/// `sized_count` is the number of multiples of `size` below `len`.
pub proof fn lemma_sized_count(len: nat, size: nat)
    requires
        size > 0,
    ensures
        len == 0 <==> sized_count(len, size) == 0,
        len > 0 ==> (sized_count(len, size) - 1) * size < len,
        len <= sized_count(len, size) * size,
        len >= size ==> sized_count((len - size) as nat, size) == sized_count(len, size) - 1,
        0 < len <= size ==> sized_count(len, size) == 1,
{
    let n = len + size - 1;
    let d = size as int;
    assert(n == d * (n / d) + n % d && 0 <= n % d < d) by (nonlinear_arith)
        requires
            d > 0,
    ;
    assert(n / d >= 0) by (nonlinear_arith)
        requires
            n >= 0,
            d > 0,
    ;
    assert((n / d - 1) * d == d * (n / d) - d) by (nonlinear_arith);
    assert((n / d) * d == d * (n / d)) by (nonlinear_arith);
    if len >= size {
        let m = n - d;
        assert(m / d == n / d - 1) by (nonlinear_arith)
            requires
                d > 0,
                m == n - d,
        ;
    }
    if 0 < len <= size {
        assert(n / d == 1) by (nonlinear_arith)
            requires
                d > 0,
                d <= n < 2 * d,
        ;
    }
}

/// Taking the first piece off a fixed-size cut leaves the fixed-size cut of
/// the remaining elements.
pub proof fn lemma_sized_step<T>(s: Seq<T>, size: nat)
    requires
        size > 0,
        s.len() > 0,
    ensures
        sized_pieces(s, size).len() > 0,
        sized_pieces(s, size)[0] == s.take(min(size as int, s.len() as int)),
        sized_pieces(s, size).skip(1) == sized_pieces(
            s.skip(min(size as int, s.len() as int)),
            size,
        ),
{
    let len = s.len();
    let first = min(size as int, len as int);
    let rest = s.skip(first);
    lemma_sized_count(len, size);
    assert(1 * size == size) by (nonlinear_arith);
    assert(0 * size == 0) by (nonlinear_arith);
    assert(sized_pieces(s, size)[0] =~= s.take(first));
    let a = sized_pieces(s, size).skip(1);
    let b = sized_pieces(rest, size);
    if len <= size {
        assert(rest.len() == 0);
        lemma_sized_count(0, size);
    }
    assert(a.len() == b.len());
    assert forall|i: int| 0 <= i < a.len() implies a[i] == b[i] by {
        assert((i + 1) * size == i * size + size) by (nonlinear_arith);
        assert((i + 2) * size == (i + 1) * size + size) by (nonlinear_arith);
        assert(i * size >= 0) by (nonlinear_arith)
            requires
                i >= 0,
        ;
        assert(a[i] == sized_pieces(s, size)[i + 1]);
        assert(a[i] =~= b[i]);
    }
    assert(a =~= b);
}

/// Cutting into fixed-size pieces and joining the pieces in order gives the
/// elements back.
pub proof fn lemma_sized_flatten<T>(s: Seq<T>, size: nat)
    requires
        size > 0,
    ensures
        sized_pieces(s, size).flatten() == s,
    decreases s.len(),
{
    let pieces = sized_pieces(s, size);
    if s.len() == 0 {
        lemma_sized_count(0, size);
        assert(pieces.flatten() =~= s);
    } else {
        let first = min(size as int, s.len() as int);
        lemma_sized_step(s, size);
        lemma_sized_flatten(s.skip(first), size);
        assert(pieces.drop_first() == pieces.skip(1));
        assert(pieces.flatten() =~= s.take(first) + s.skip(first));
        assert(s.take(first) + s.skip(first) =~= s);
    }
}

/// Every piece of a fixed-size cut but the last holds exactly `size`
/// elements; the last holds between one and `size`.
pub proof fn lemma_sized_lengths<T>(s: Seq<T>, size: nat, i: int)
    requires
        size > 0,
        0 <= i < sized_count(s.len(), size),
    ensures
        sized_pieces(s, size).len() == sized_count(s.len(), size),
        i < sized_count(s.len(), size) - 1 ==> sized_pieces(s, size)[i].len() == size,
        i == sized_count(s.len(), size) - 1 ==> 0 < sized_pieces(s, size)[i].len() <= size,
        sized_pieces(s, size)[i] == s.subrange(i * size, min((i + 1) * size, s.len() as int)),
{
    let len = s.len();
    let n = sized_count(len, size) as int;
    lemma_sized_count(len, size);
    assert(i * size <= (n - 1) * size) by (nonlinear_arith)
        requires
            i <= n - 1,
            size >= 0,
    ;
    assert((i + 1) * size == i * size + size) by (nonlinear_arith);
    assert(i * size >= 0) by (nonlinear_arith)
        requires
            i >= 0,
    ;
    if i < n - 1 {
        assert((i + 1) * size <= (n - 1) * size) by (nonlinear_arith)
            requires
                i + 1 <= n - 1,
                size >= 0,
        ;
    } else {
        assert(n * size == (n - 1) * size + size) by (nonlinear_arith);
    }
}

/// Position at which piece `i` begins when the first `longs` pieces hold
/// `base + 1` elements and the others hold `base`.
pub open spec fn balanced_bound(base: nat, longs: nat, i: int) -> int {
    i * base + min(i, longs as int)
}

/// The pieces of `s` when it is cut into `longs` pieces of `base + 1`
/// elements followed by `shorts` pieces of `base` elements.
pub open spec fn balanced_pieces<T>(s: Seq<T>, base: nat, longs: nat, shorts: nat) -> Seq<Seq<T>> {
    Seq::new(
        longs + shorts,
        |i: int| s.subrange(balanced_bound(base, longs, i), balanced_bound(base, longs, i + 1)),
    )
}

/// Number of pieces that hold one element more than the others when `len`
/// elements are divided into `parts` pieces.
pub open spec fn even_longs(len: nat, parts: nat) -> nat {
    if parts == 0 {
        0
    } else {
        len % parts
    }
}

/// Size of the smaller pieces when `len` elements are divided into `parts`
/// pieces.
pub open spec fn even_base(len: nat, parts: nat) -> nat {
    if parts == 0 {
        0
    } else {
        len / parts
    }
}

/// Number of smaller pieces. Empty pieces are never produced, so there are
/// none when fewer elements than parts exist.
pub open spec fn even_shorts(len: nat, parts: nat) -> nat {
    if even_base(len, parts) == 0 {
        0
    } else {
        (parts - even_longs(len, parts)) as nat
    }
}

/// Number of pieces of an even division: `parts`, or `len` if there are
/// fewer elements than parts.
pub open spec fn even_count(len: nat, parts: nat) -> nat {
    even_longs(len, parts) + even_shorts(len, parts)
}

/// The pieces of `s` when divided into `parts` nearly equal pieces: the
/// leading `len % parts` pieces hold one element more than the rest.
pub open spec fn even_pieces<T>(s: Seq<T>, parts: nat) -> Seq<Seq<T>> {
    balanced_pieces(
        s,
        even_base(s.len(), parts),
        even_longs(s.len(), parts),
        even_shorts(s.len(), parts),
    )
}

/// The pieces of an even division account for every element.
pub proof fn lemma_even_total(len: nat, parts: nat)
    requires
        parts > 0,
    ensures
        even_longs(len, parts) < parts,
        even_longs(len, parts) * (even_base(len, parts) + 1) + even_shorts(len, parts) * even_base(
            len,
            parts,
        ) == len,
        len >= parts ==> even_count(len, parts) == parts,
        len < parts ==> even_count(len, parts) == len,
{
    let d = parts as int;
    let n = len as int;
    let q = even_base(len, parts) as int;
    let r = even_longs(len, parts) as int;
    let k = even_shorts(len, parts) as int;
    assert(n == d * q + r && 0 <= r < d) by (nonlinear_arith)
        requires
            d > 0,
            q == n / d,
            r == n % d,
    ;
    if q == 0 {
        assert(d * q == 0) by (nonlinear_arith)
            requires
                q == 0,
        ;
        assert(r * (q + 1) + k * q == r) by (nonlinear_arith)
            requires
                q == 0,
        ;
    } else {
        assert(r * (q + 1) + k * q == d * q + r) by (nonlinear_arith)
            requires
                k == d - r,
        ;
        assert(d * q >= d) by (nonlinear_arith)
            requires
                q >= 1,
                d > 0,
        ;
    }
}

/// Taking the first piece off a balanced cut leaves a balanced cut of the
/// remaining elements with one piece less.
pub proof fn lemma_balanced_step<T>(s: Seq<T>, base: nat, longs: nat, shorts: nat)
    requires
        longs + shorts > 0,
        longs * (base + 1) + shorts * base == s.len(),
    ensures
        balanced_pieces(s, base, longs, shorts).len() == longs + shorts,
        longs > 0 ==> {
            &&& s.len() >= base + 1
            &&& balanced_pieces(s, base, longs, shorts)[0] == s.take(base as int + 1)
            &&& balanced_pieces(s, base, longs, shorts).skip(1) == balanced_pieces(
                s.skip(base as int + 1),
                base,
                (longs - 1) as nat,
                shorts,
            )
        },
        longs == 0 ==> {
            &&& s.len() >= base
            &&& balanced_pieces(s, base, longs, shorts)[0] == s.take(base as int)
            &&& balanced_pieces(s, base, longs, shorts).skip(1) == balanced_pieces(
                s.skip(base as int),
                base,
                0,
                (shorts - 1) as nat,
            )
        },
{
    let pieces = balanced_pieces(s, base, longs, shorts);
    let first: int = if longs > 0 {
        base as int + 1
    } else {
        base as int
    };
    let longs_after: nat = if longs > 0 {
        (longs - 1) as nat
    } else {
        0
    };
    let shorts_after: nat = if longs > 0 {
        shorts
    } else {
        (shorts - 1) as nat
    };
    lemma_balanced_bounds(s.len(), base, longs, shorts, 0);
    lemma_balanced_bounds(s.len(), base, longs, shorts, 1);
    assert(pieces[0] =~= s.take(first));
    let a = pieces.skip(1);
    let b = balanced_pieces(s.skip(first), base, longs_after, shorts_after);
    assert(a.len() == b.len());
    assert forall|i: int| 0 <= i < a.len() implies a[i] == b[i] by {
        lemma_balanced_bounds(s.len(), base, longs, shorts, i + 1);
        lemma_balanced_bounds(s.len(), base, longs, shorts, i + 2);
        lemma_balanced_shift(base, longs, i);
        lemma_balanced_shift(base, longs, i + 1);
        assert(a[i] == pieces[i + 1]);
        assert(a[i] =~= b[i]);
    }
    assert(a =~= b);
}

/// Dropping the first piece moves every later bound down by the size of
/// that piece.
proof fn lemma_balanced_shift(base: nat, longs: nat, i: int)
    requires
        0 <= i,
    ensures
        longs > 0 ==> balanced_bound(base, longs, i + 1) == balanced_bound(
            base,
            (longs - 1) as nat,
            i,
        ) + base + 1,
        longs == 0 ==> balanced_bound(base, longs, i + 1) == balanced_bound(base, 0, i) + base,
{
    assert((i + 1) * base == i * base + base) by (nonlinear_arith);
}

/// The bounds of a balanced cut rise from zero to the number of elements.
pub proof fn lemma_balanced_bounds(len: nat, base: nat, longs: nat, shorts: nat, i: int)
    requires
        longs * (base + 1) + shorts * base == len,
        0 <= i <= longs + shorts,
    ensures
        0 <= balanced_bound(base, longs, i) <= len,
        i == 0 ==> balanced_bound(base, longs, i) == 0,
        i == longs + shorts ==> balanced_bound(base, longs, i) == len,
        i < longs + shorts ==> balanced_bound(base, longs, i + 1) - balanced_bound(base, longs, i)
            == base + (if i < longs {
            1int
        } else {
            0int
        }),
{
    let total = longs + shorts;
    assert(i * base >= 0) by (nonlinear_arith)
        requires
            i >= 0,
    ;
    assert((i + 1) * base == i * base + base) by (nonlinear_arith);
    assert(longs * (base + 1) == longs * base + longs) by (nonlinear_arith);
    assert(total * base == longs * base + shorts * base) by (nonlinear_arith)
        requires
            total == longs + shorts,
    ;
    assert(i * base <= total * base) by (nonlinear_arith)
        requires
            0 <= i <= total,
    ;
}

/// Joining the pieces of a balanced cut in order gives the elements back.
pub proof fn lemma_balanced_flatten<T>(s: Seq<T>, base: nat, longs: nat, shorts: nat)
    requires
        longs * (base + 1) + shorts * base == s.len(),
    ensures
        balanced_pieces(s, base, longs, shorts).flatten() == s,
    decreases longs + shorts,
{
    let pieces = balanced_pieces(s, base, longs, shorts);
    if longs + shorts == 0 {
        assert(0 * (base + 1) + 0 * base == 0) by (nonlinear_arith);
        assert(pieces.flatten() =~= s);
    } else {
        lemma_balanced_step(s, base, longs, shorts);
        let first: int = if longs > 0 {
            base as int + 1
        } else {
            base as int
        };
        assert(pieces.drop_first() == pieces.skip(1));
        if longs > 0 {
            assert(longs * (base + 1) == (longs - 1) * (base + 1) + base + 1) by (nonlinear_arith);
            lemma_balanced_flatten(s.skip(first), base, (longs - 1) as nat, shorts);
        } else {
            assert(shorts * base == (shorts - 1) * base + base) by (nonlinear_arith);
            assert(0 * (base + 1) == 0) by (nonlinear_arith);
            lemma_balanced_flatten(s.skip(first), base, 0, (shorts - 1) as nat);
        }
        assert(pieces.flatten() =~= s.take(first) + s.skip(first));
        assert(s.take(first) + s.skip(first) =~= s);
    }
}

/// Dividing into nearly equal pieces and joining the pieces in order gives
/// the elements back.
pub proof fn lemma_even_flatten<T>(s: Seq<T>, parts: nat)
    requires
        parts > 0,
    ensures
        even_pieces(s, parts).flatten() == s,
{
    lemma_even_total(s.len(), parts);
    lemma_balanced_flatten(
        s,
        even_base(s.len(), parts),
        even_longs(s.len(), parts),
        even_shorts(s.len(), parts),
    );
}

/// In an even division the first `len % parts` pieces hold one element more
/// than `len / parts`, the others exactly `len / parts`; piece `i` begins
/// after the `i` pieces before it.
pub proof fn lemma_even_lengths<T>(s: Seq<T>, parts: nat, i: int)
    requires
        parts > 0,
        0 <= i < even_count(s.len(), parts),
    ensures
        even_pieces(s, parts).len() == even_count(s.len(), parts),
        even_pieces(s, parts)[i].len() == s.len() / parts + (if i < s.len() % parts {
            1int
        } else {
            0int
        }),
        even_pieces(s, parts)[i] == s.subrange(
            balanced_bound(even_base(s.len(), parts), even_longs(s.len(), parts), i),
            balanced_bound(even_base(s.len(), parts), even_longs(s.len(), parts), i + 1),
        ),
{
    let len = s.len();
    lemma_even_total(len, parts);
    lemma_balanced_bounds(
        len,
        even_base(len, parts),
        even_longs(len, parts),
        even_shorts(len, parts),
        i,
    );
    lemma_balanced_bounds(
        len,
        even_base(len, parts),
        even_longs(len, parts),
        even_shorts(len, parts),
        i + 1,
    );
}

/// A collection of at least `parts` elements is divided into exactly
/// `parts` pieces; the sizes of any two pieces differ by at most one, and
/// each of the first `len % parts` pieces holds `len / parts` elements,
/// rounded up.
pub proof fn lemma_even_division<T>(s: Seq<T>, parts: nat, i: int, j: int)
    requires
        parts > 0,
        s.len() >= parts,
        0 <= i < parts,
        0 <= j < parts,
    ensures
        even_pieces(s, parts).len() == parts,
        even_pieces(s, parts)[i].len() - even_pieces(s, parts)[j].len() <= 1,
        i < s.len() % parts ==> even_pieces(s, parts)[i].len() == (s.len() + parts - 1) / (
        parts as int),
        i >= s.len() % parts ==> even_pieces(s, parts)[i].len() == s.len() / parts,
{
    let len = s.len() as int;
    let d = parts as int;
    lemma_even_total(s.len(), parts);
    lemma_even_lengths(s, parts, i);
    lemma_even_lengths(s, parts, j);
    if i < len % d {
        assert((len + d - 1) / d == len / d + 1) by (nonlinear_arith)
            requires
                d > 0,
                len >= 0,
                len % d > 0,
        ;
    }
}

/// Number of windows of `width` elements over `len` elements.
pub open spec fn window_count(len: nat, width: nat) -> nat {
    if len >= width {
        (len - width + 1) as nat
    } else {
        0
    }
}

/// The windows of `width` elements over `s`, each beginning one element
/// after the one before it.
pub open spec fn windows<T>(s: Seq<T>, width: nat) -> Seq<Seq<T>> {
    Seq::new(window_count(s.len(), width), |i: int| s.subrange(i, i + width))
}

/// Taking the first window off leaves the windows over the elements after
/// the first.
pub proof fn lemma_windows_step<T>(s: Seq<T>, width: nat)
    requires
        width > 0,
        s.len() >= width,
    ensures
        windows(s, width).len() > 0,
        windows(s, width)[0] == s.take(width as int),
        windows(s, width).skip(1) == windows(s.skip(1), width),
{
    assert(windows(s, width)[0] =~= s.take(width as int));
    let a = windows(s, width).skip(1);
    let b = windows(s.skip(1), width);
    assert(a.len() == b.len());
    assert forall|i: int| 0 <= i < a.len() implies a[i] == b[i] by {
        assert(a[i] == windows(s, width)[i + 1]);
        assert(a[i] =~= b[i]);
    }
    assert(a =~= b);
}

/// Every window holds `width` elements, and each window shares all but its
/// first element with the window after it.
pub proof fn lemma_windows_overlap<T>(s: Seq<T>, width: nat, i: int)
    requires
        width > 0,
        0 <= i < window_count(s.len(), width),
    ensures
        windows(s, width).len() == window_count(s.len(), width),
        windows(s, width)[i] == s.subrange(i, i + width),
        windows(s, width)[i].len() == width,
        i + 1 < window_count(s.len(), width) ==> windows(s, width)[i].skip(1) == windows(
            s,
            width,
        )[i + 1].take(width - 1),
{
    if i + 1 < window_count(s.len(), width) {
        assert(windows(s, width)[i].skip(1) =~= windows(s, width)[i + 1].take(width - 1));
    }
}

/// Where the next fixed-size piece ends, for a cut that has reached `index`
/// and stops at `end`; `None` once nothing is left.
pub fn sized_step(index: usize, chunk_size: usize, end: usize) -> (bound: Option<usize>)
    requires
        index < end ==> chunk_size > 0,
    ensures
        index >= end <==> bound is None,
        bound matches Some(b) ==> b == min(index + chunk_size, end as int),
{
    if index >= end {
        None
    } else if chunk_size >= end - index {
        Some(end)
    } else {
        Some(index + chunk_size)
    }
}

/// Size of the next piece of a balanced cut with `longs` longer and
/// `shorts` shorter pieces left; `None` once no piece is left.
pub fn balanced_step(base: usize, longs: usize, shorts: usize) -> (size: Option<usize>)
    requires
        longs > 0 ==> base < usize::MAX,
    ensures
        longs + shorts == 0 <==> size is None,
        size matches Some(n) ==> n == base + (if longs > 0 {
            1int
        } else {
            0int
        }),
{
    if longs > 0 {
        Some(base + 1)
    } else if shorts > 0 {
        Some(base)
    } else {
        None
    }
}

/// Whether a window of `width` elements beginning at `index` ends at or
/// before `end`.
pub fn window_fits(index: usize, width: usize, end: usize) -> (fits: bool)
    ensures
        fits <==> index + width <= end,
{
    index <= end && width <= end - index
}

} // verus!
