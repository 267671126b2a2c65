use vstd::prelude::*;

verus! {

/// `n` is a power of two.
pub open spec fn is_pow2(n: int) -> bool
    decreases n,
{
    if n <= 0 {
        false
    } else if n == 1 {
        true
    } else {
        n % 2 == 0 && is_pow2(n / 2)
    }
}

/// Bytes needed after `x` to reach the next multiple of `a`.
pub open spec fn padding_for(x: int, a: int) -> int {
    if x % a == 0 {
        0
    } else {
        a - x % a
    }
}

/// `x` rounded up to the next multiple of `a`.
pub open spec fn round_up(x: int, a: int) -> int {
    x + padding_for(x, a)
}

/// The rule every layout obeys: a power-of-two alignment, and a size that,
/// rounded up to the alignment, still fits in an `isize`.
pub open spec fn valid_layout(size: int, align: int) -> bool {
    &&& 0 <= size
    &&& is_pow2(align)
    &&& round_up(size, align) <= isize::MAX
}

/// Size and alignment of a block of memory.
#[derive(Clone, Copy, PartialEq, Eq, Structural, Debug)]
pub struct Layout {
    size: usize,
    align: usize,
}

/// A layout whose size is not zero.
#[derive(Clone, Copy, PartialEq, Eq, Structural, Debug)]
pub struct NonEmptyLayout {
    size: usize,
    align: usize,
}

/// A power of two is at least one.
pub proof fn lemma_pow2_pos(n: int)
    requires
        is_pow2(n),
    ensures
        n >= 1,
    decreases n,
{
}

/// Rounding up stays a multiple and never goes down.
pub proof fn lemma_padding_bounds(x: int, a: int)
    requires
        x >= 0,
        a >= 1,
    ensures
        0 <= padding_for(x, a) < a,
        round_up(x, a) % a == 0,
        round_up(x, a) >= x,
{
    assert(0 <= x % a < a);
    if x % a != 0 {
        assert((x + (a - x % a)) % a == 0) by {
            vstd::arithmetic::div_mod::lemma_fundamental_div_mod(x, a);
            vstd::arithmetic::div_mod::lemma_mod_multiples_basic(x / a + 1, a);
            assert(x + (a - x % a) == (x / a + 1) * a) by (nonlinear_arith)
                requires
                    x == a * (x / a) + x % a,
            ;
        }
    }
}

/// Tells whether `n` is a power of two.
fn check_pow2(n: usize) -> (r: bool)
    ensures
        r == is_pow2(n as int),
{
    let mut m: usize = n;
    while m > 1 && m % 2 == 0
        invariant
            is_pow2(m as int) == is_pow2(n as int),
        decreases m,
    {
        m = m / 2;
    }
    m == 1
}

/// Bytes needed after `x` to reach a multiple of `a`.
fn padding_needed(x: usize, a: usize) -> (r: usize)
    requires
        a >= 1,
    ensures
        r == padding_for(x as int, a as int),
{
    let rem = x % a;
    if rem == 0 {
        0
    } else {
        a - rem
    }
}

impl Layout {
    #[verifier::type_invariant]
    spec fn inv(self) -> bool {
        valid_layout(self.size as int, self.align as int)
    }

    pub closed spec fn spec_size(self) -> usize {
        self.size
    }

    pub closed spec fn spec_align(self) -> usize {
        self.align
    }

    /// The layout with the given parts (meaningful when they are valid).
    pub closed spec fn spec_new(size: usize, align: usize) -> Layout {
        Layout { size, align }
    }

    /// The size in bytes.
    #[verifier::when_used_as_spec(spec_size)]
    pub fn size(self) -> (r: usize)
        ensures
            r == self.spec_size(),
            valid_layout(self.spec_size() as int, self.spec_align() as int),
    {
        proof {
            use_type_invariant(&self);
        }
        self.size
    }

    /// The alignment in bytes, a power of two.
    #[verifier::when_used_as_spec(spec_align)]
    pub fn align(self) -> (r: usize)
        ensures
            r == self.spec_align(),
            valid_layout(self.spec_size() as int, self.spec_align() as int),
    {
        proof {
            use_type_invariant(&self);
        }
        self.align
    }

    /// Builds a layout; `None` when the alignment is not a power of two or the
    /// rounded-up size overflows `isize`.
    pub fn from_size_align(size: usize, align: usize) -> (r: Option<Layout>)
        ensures
            r is Some <==> valid_layout(size as int, align as int),
            r is Some ==> r->0 == Layout::spec_new(size, align),
            r is Some ==> r->0.spec_size() == size && r->0.spec_align() == align,
    {
        if !check_pow2(align) {
            return None;
        }
        proof {
            lemma_pow2_pos(align as int);
        }
        let pad = padding_needed(size, align);
        if size > isize::MAX as usize || pad > isize::MAX as usize - size {
            return None;
        }
        Some(Layout { size, align })
    }

    /// The layout of a zero-sized value aligned to `align`.
    pub fn dangling_layout(align: usize) -> (r: Layout)
        requires
            is_pow2(align as int),
            align <= isize::MAX,
        ensures
            r == Layout::spec_new(0, align),
    {
        proof {
            lemma_pow2_pos(align as int);
        }
        Layout { size: 0, align }
    }

    /// Rounds the size up to a multiple of the alignment.
    pub fn pad_to_align(&self) -> (r: Layout)
        ensures
            r == Layout::spec_new(
                round_up(self.spec_size() as int, self.spec_align() as int) as usize,
                self.spec_align(),
            ),
    {
        proof {
            use_type_invariant(self);
            lemma_pow2_pos(self.align as int);
            lemma_padding_bounds(self.size as int, self.align as int);
            assert(round_up(round_up(self.size as int, self.align as int), self.align as int)
                == round_up(self.size as int, self.align as int));
        }
        let pad = padding_needed(self.size, self.align);
        Layout { size: self.size + pad, align: self.align }
    }
}

/// What appending `next` after `first` gives: the combined layout and the
/// offset at which `next` starts, or `None` on overflow.
pub open spec fn extend_spec(first: Layout, next: Layout) -> Option<(Layout, usize)> {
    let offset = round_up(first.spec_size() as int, next.spec_align() as int);
    let size = offset + next.spec_size();
    let align = if first.spec_align() >= next.spec_align() {
        first.spec_align()
    } else {
        next.spec_align()
    };
    if size <= usize::MAX && valid_layout(size, align as int) {
        Some((Layout::spec_new(size as usize, align), offset as usize))
    } else {
        None
    }
}

/// What repeating `layout` `n` times gives: each element padded to the
/// alignment, and the stride between elements.
pub open spec fn repeat_spec(layout: Layout, n: usize) -> Option<(Layout, usize)> {
    let stride = round_up(layout.spec_size() as int, layout.spec_align() as int);
    let size = stride * n;
    if size <= usize::MAX && valid_layout(size, layout.spec_align() as int) {
        Some((Layout::spec_new(size as usize, layout.spec_align()), stride as usize))
    } else {
        None
    }
}

impl Layout {
    /// The layout of `self` followed by `next`, with the offset of `next`.
    pub fn extend(&self, next: Layout) -> (r: Option<(Layout, usize)>)
        ensures
            r == extend_spec(*self, next),
    {
        proof {
            use_type_invariant(self);
            use_type_invariant(&next);
            lemma_pow2_pos(next.align as int);
        }
        let align = if self.align >= next.align {
            self.align
        } else {
            next.align
        };
        let pad = padding_needed(self.size, next.align);
        if pad > usize::MAX - self.size {
            return None;
        }
        let offset = self.size + pad;
        if next.size > usize::MAX - offset {
            return None;
        }
        let size = offset + next.size;
        match Layout::from_size_align(size, align) {
            Some(layout) => Some((layout, offset)),
            None => None,
        }
    }

    /// The layout of `n` copies of `self`, each padded to the alignment, with
    /// the stride between copies.
    pub fn repeat(&self, n: usize) -> (r: Option<(Layout, usize)>)
        ensures
            r == repeat_spec(*self, n),
    {
        proof {
            use_type_invariant(self);
            lemma_pow2_pos(self.align as int);
            lemma_padding_bounds(self.size as int, self.align as int);
        }
        let pad = padding_needed(self.size, self.align);
        let stride = self.size + pad;
        match stride.checked_mul(n) {
            Some(size) => match Layout::from_size_align(size, self.align) {
                Some(layout) => Some((layout, stride)),
                None => None,
            },
            None => None,
        }
    }
}

impl NonEmptyLayout {
    #[verifier::type_invariant]
    spec fn inv(self) -> bool {
        &&& self.size > 0
        &&& valid_layout(self.size as int, self.align as int)
    }

    pub closed spec fn spec_size(self) -> usize {
        self.size
    }

    pub closed spec fn spec_align(self) -> usize {
        self.align
    }

    /// The same layout seen as a plain `Layout`.
    pub closed spec fn spec_layout(self) -> Layout {
        Layout::spec_new(self.size, self.align)
    }

    /// The non-empty layout with the parts of `layout`.
    pub closed spec fn spec_from(layout: Layout) -> NonEmptyLayout {
        NonEmptyLayout { size: layout.spec_size(), align: layout.spec_align() }
    }

    /// The size in bytes, never zero.
    #[verifier::when_used_as_spec(spec_size)]
    pub fn size(self) -> (r: usize)
        ensures
            r == self.spec_size(),
            r > 0,
            valid_layout(self.spec_size() as int, self.spec_align() as int),
    {
        proof {
            use_type_invariant(&self);
        }
        self.size
    }

    /// The alignment in bytes, a power of two.
    #[verifier::when_used_as_spec(spec_align)]
    pub fn align(self) -> (r: usize)
        ensures
            r == self.spec_align(),
            self.spec_size() > 0,
            valid_layout(self.spec_size() as int, self.spec_align() as int),
    {
        proof {
            use_type_invariant(&self);
        }
        self.align
    }

    /// The non-empty view of `layout`; `None` when its size is zero.
    pub fn new(layout: Layout) -> (r: Option<NonEmptyLayout>)
        ensures
            r is Some <==> layout.spec_size() > 0,
            r is Some ==> r->0 == NonEmptyLayout::spec_from(layout),
            r is Some ==> r->0.spec_size() == layout.spec_size() && r->0.spec_align()
                == layout.spec_align() && r->0.spec_layout() == layout,
    {
        let size = layout.size();
        let align = layout.align();
        if size == 0 {
            None
        } else {
            Some(NonEmptyLayout { size, align })
        }
    }

    /// The non-empty view of a layout known to have a size.
    pub fn new_unchecked(layout: Layout) -> (r: NonEmptyLayout)
        requires
            layout.spec_size() > 0,
        ensures
            r == NonEmptyLayout::spec_from(layout),
            r.spec_size() == layout.spec_size(),
            r.spec_align() == layout.spec_align(),
            r.spec_layout() == layout,
    {
        let size = layout.size();
        let align = layout.align();
        NonEmptyLayout { size, align }
    }

    /// This layout as a plain `Layout`.
    pub fn to_layout(self) -> (r: Layout)
        ensures
            r == self.spec_layout(),
            r.spec_size() == self.spec_size(),
            r.spec_align() == self.spec_align(),
            r.spec_size() > 0,
    {
        proof {
            use_type_invariant(&self);
        }
        Layout { size: self.size, align: self.align }
    }

    /// This layout followed by `next`, with the offset of `next`.
    pub fn extend(self, next: Layout) -> (r: Option<(NonEmptyLayout, usize)>)
        ensures
            r is Some <==> extend_spec(self.spec_layout(), next) is Some,
            r is Some ==> (r->0).0 == NonEmptyLayout::spec_from((extend_spec(self.spec_layout(), next)->0).0)
                && (r->0).1 == (extend_spec(self.spec_layout(), next)->0).1,
    {
        proof {
            use_type_invariant(&self);
        }
        match self.to_layout().extend(next) {
            Some((layout, offset)) => {
                proof {
                    use_type_invariant(&next);
                    lemma_pow2_pos(next.align as int);
                    lemma_padding_bounds(self.size as int, next.align as int);
                }
                Some((NonEmptyLayout::new_unchecked(layout), offset))
            },
            None => None,
        }
    }
}

impl NonEmptyLayout {
    /// `other` followed by this layout, with the offset of this layout.
    pub fn extend_after(self, other: Layout) -> (r: Option<(NonEmptyLayout, usize)>)
        ensures
            r is Some <==> extend_spec(other, self.spec_layout()) is Some,
            r is Some ==> (r->0).0 == NonEmptyLayout::spec_from((extend_spec(other, self.spec_layout())->0).0)
                && (r->0).1 == (extend_spec(other, self.spec_layout())->0).1,
    {
        proof {
            use_type_invariant(&self);
            lemma_pow2_pos(self.align as int);
        }
        let me = self.to_layout();
        match other.extend(me) {
            Some((layout, offset)) => {
                proof {
                    lemma_padding_bounds(other.spec_size() as int, self.align as int);
                }
                Some((NonEmptyLayout::new_unchecked(layout), offset))
            },
            None => None,
        }
    }
}

/// The parts of a layout built with `spec_new` are the ones given.
pub broadcast proof fn lemma_spec_new(size: usize, align: usize)
    ensures
        #[trigger] Layout::spec_new(size, align).spec_size() == size,
        Layout::spec_new(size, align).spec_align() == align,
{
}

/// The parts of the non-empty layouts built from and into plain layouts.
pub broadcast proof fn lemma_non_empty_parts(l: NonEmptyLayout, p: Layout)
    ensures
        #[trigger] NonEmptyLayout::spec_from(p).spec_size() == p.spec_size(),
        NonEmptyLayout::spec_from(p).spec_align() == p.spec_align(),
        #[trigger] l.spec_layout().spec_size() == l.spec_size(),
        l.spec_layout().spec_align() == l.spec_align(),
{
}

/// Rounding up never goes down and is idempotent.
pub proof fn lemma_round_up_ge(x: int, a: int)
    requires
        x >= 0,
        a >= 1,
    ensures
        round_up(x, a) >= x,
        round_up(round_up(x, a), a) == round_up(x, a),
{
    lemma_padding_bounds(x, a);
}

/// Appending puts the second layout at or after the end of the first, and
/// the whole fits in an `isize`.
pub proof fn lemma_extend(first: Layout, next: Layout)
    requires
        next.spec_align() >= 1,
    ensures
        extend_spec(first, next) is Some ==> {
            let (whole, offset) = extend_spec(first, next)->0;
            &&& offset >= first.spec_size()
            &&& offset + next.spec_size() == whole.spec_size()
            &&& whole.spec_size() <= isize::MAX
        },
{
    lemma_padding_bounds(first.spec_size() as int, next.spec_align() as int);
    if extend_spec(first, next) is Some {
        let (whole, offset) = extend_spec(first, next)->0;
        let align = if first.spec_align() >= next.spec_align() {
            first.spec_align()
        } else {
            next.spec_align()
        };
        lemma_padding_bounds(whole.spec_size() as int, align as int);
    }
}

/// Rounding up keeps the order of sizes.
pub proof fn lemma_round_up_mono(x: int, y: int, a: int)
    requires
        0 <= x <= y,
        is_pow2(a),
    ensures
        round_up(x, a) <= round_up(y, a),
{
    lemma_pow2_pos(a);
    lemma_padding_bounds(x, a);
    lemma_padding_bounds(y, a);
    vstd::arithmetic::div_mod::lemma_fundamental_div_mod(round_up(x, a), a);
    vstd::arithmetic::div_mod::lemma_fundamental_div_mod(round_up(y, a), a);
    vstd::arithmetic::div_mod::lemma_fundamental_div_mod(x, a);
    vstd::arithmetic::div_mod::lemma_fundamental_div_mod(y, a);
    if round_up(x, a) > round_up(y, a) {
        let qx = round_up(x, a) / a;
        let qy = round_up(y, a) / a;
        assert(qx > qy) by (nonlinear_arith)
            requires
                round_up(x, a) == a * qx,
                round_up(y, a) == a * qy,
                round_up(x, a) > round_up(y, a),
                a >= 1,
        ;
        assert(round_up(x, a) >= round_up(y, a) + a) by (nonlinear_arith)
            requires
                round_up(x, a) == a * qx,
                round_up(y, a) == a * qy,
                qx >= qy + 1,
                a >= 1,
        ;
    }
}

/// `x` rounded down to a multiple of `a`.
pub open spec fn round_down(x: int, a: int) -> int {
    x - x % a
}

/// Where a downward-growing bump pointer at `top` puts a block for `layout`,
/// when alignments up to `max_align` are served: the new top, or `None` when
/// the alignment is too large or the space below `top` too small.
pub open spec fn bump_down_spec(top: usize, layout: NonEmptyLayout, max_align: usize) -> Option<usize> {
    if max_align < layout.spec_align() || top < layout.spec_size() {
        None
    } else {
        Some(round_down(top - layout.spec_size(), layout.spec_align() as int) as usize)
    }
}

/// A block carved below `top` ends at or below it.
pub proof fn lemma_bump_down_below(top: usize, layout: NonEmptyLayout, max_align: usize)
    requires
        layout.spec_align() >= 1,
    ensures
        bump_down_spec(top, layout, max_align) is Some ==> bump_down_spec(top, layout, max_align)->0
            + layout.spec_size() <= top,
{
    if bump_down_spec(top, layout, max_align) is Some {
        let rest = top - layout.spec_size();
        let a = layout.spec_align() as int;
        vstd::arithmetic::div_mod::lemma_fundamental_div_mod(rest, a);
        assert(rest % a <= rest) by (nonlinear_arith)
            requires
                rest == a * (rest / a) + rest % a,
                rest >= 0,
                a >= 1,
                rest % a >= 0,
        ;
    }
}

/// The block a bump pointer at `top` takes for `layout`: its start, which is
/// aligned and leaves at least `layout.size()` bytes below `top`.
pub fn bump_down(top: usize, layout: NonEmptyLayout, max_align: usize) -> (r: Option<usize>)
    ensures
        r == bump_down_spec(top, layout, max_align),
        r is Some ==> r->0 + layout.spec_size() <= top && (r->0 as int) % (layout.spec_align() as int) == 0,
{
    let size = layout.size();
    let align = layout.align();
    if max_align < align || top < size {
        return None;
    }
    proof {
        lemma_pow2_pos(align as int);
    }
    let rest = top - size;
    let m = rest % align;
    proof {
        vstd::arithmetic::div_mod::lemma_fundamental_div_mod(rest as int, align as int);
        assert(m <= rest) by (nonlinear_arith)
            requires
                rest == align * (rest as int / align as int) + m,
                rest >= 0,
                align >= 1,
                m >= 0,
        ;
    }
    let begin = rest - m;
    proof {
        vstd::arithmetic::div_mod::lemma_mod_multiples_basic(rest as int / align as int, align as int);
        assert(begin as int == align * (rest as int / align as int));
        assert((align * (rest as int / align as int)) % align as int == 0) by {
            vstd::arithmetic::mul::lemma_mul_is_commutative(align as int, rest as int / align as int);
        }
    }
    Some(begin)
}

/// `h` shifted by `off` bytes, wrapping around the address space.
pub open spec fn shifted(h: usize, off: isize) -> usize {
    if h + off > usize::MAX {
        (h + off - (usize::MAX + 1)) as usize
    } else if h + off < 0 {
        (h + off + (usize::MAX + 1)) as usize
    } else {
        (h + off) as usize
    }
}

/// Shifting by `off` and then by `-off` gives back the start.
pub proof fn lemma_shift_back(h: usize, off: isize)
    requires
        off > isize::MIN,
    ensures
        shifted(shifted(h, off), (-off) as isize) == h,
{
}

/// `h` shifted by `off` bytes, wrapping around the address space.
pub fn shift(h: usize, off: isize) -> (r: usize)
    ensures
        r == shifted(h, off),
{
    h.wrapping_add_signed(off)
}

} // verus!
