//! The chunk store: an append-only sequence of fixed-capacity chunks.
//!
//! Elements are appended to the last chunk until it is full; then a new chunk
//! with twice the capacity of the previous one is appended and the element
//! becomes its first entry. Chunks already created are never touched again, so
//! the position of an element — its (chunk, offset) address — and the element
//! itself never change once it has been stored.

use vstd::prelude::*;

verus! {

/// One storage segment: a vector that never holds more than `cap` elements.
/// The backing vector is created with `cap` slots reserved up front and is
/// never grown past them, so it is never reallocated.
struct Chunk<E> {
    cap: usize,
    items: Vec<E>,
}

/// Concatenation of a sequence of sequences, in order.
pub open spec fn flat_seq<E>(s: Seq<Seq<E>>) -> Seq<E>
    decreases s.len(),
{
    if s.len() == 0 {
        Seq::empty()
    } else {
        flat_seq(s.drop_last()) + s.last()
    }
}

/// Number of elements held by the first `c` inner sequences together.
pub open spec fn flat_prefix_len<E>(s: Seq<Seq<E>>, c: int) -> int {
    flat_seq(s.take(c)).len() as int
}

proof fn lemma_flat_push<E>(s: Seq<Seq<E>>, t: Seq<E>)
    ensures
        flat_seq(s.push(t)) == flat_seq(s) + t,
{
    assert(s.push(t).drop_last() =~= s);
    assert(s.push(t).last() == t);
}

proof fn lemma_flat_update_last<E>(s: Seq<Seq<E>>, v: E)
    requires
        s.len() > 0,
    ensures
        flat_seq(s.update(s.len() - 1, s.last().push(v))) == flat_seq(s).push(v),
{
    let s2 = s.update(s.len() - 1, s.last().push(v));
    assert(s2.drop_last() =~= s.drop_last());
    assert(s2.last() == s.last().push(v));
    assert(flat_seq(s.drop_last()) + s.last().push(v) =~= (flat_seq(s.drop_last())
        + s.last()).push(v));
}

proof fn lemma_flat_take_succ<E>(s: Seq<Seq<E>>, c: int)
    requires
        0 <= c < s.len(),
    ensures
        flat_prefix_len(s, c + 1) == flat_prefix_len(s, c) + s[c].len(),
{
    assert(s.take(c + 1) =~= s.take(c).push(s[c]));
    lemma_flat_push(s.take(c), s[c]);
}

proof fn lemma_flat_take_all<E>(s: Seq<Seq<E>>)
    ensures
        flat_prefix_len(s, s.len() as int) == flat_seq(s).len(),
{
    assert(s.take(s.len() as int) =~= s);
}

proof fn lemma_flat_prefix_le<E>(s: Seq<Seq<E>>, c: int)
    requires
        0 <= c <= s.len(),
    ensures
        flat_prefix_len(s, c) <= flat_seq(s).len(),
    decreases s.len() - c,
{
    if c == s.len() {
        lemma_flat_take_all(s);
    } else {
        lemma_flat_take_succ(s, c);
        lemma_flat_prefix_le(s, c + 1);
    }
}

/// Reading the flattened sequence at the position an address maps to yields
/// the element that the address names.
proof fn lemma_flat_index<E>(s: Seq<Seq<E>>, c: int, o: int)
    requires
        0 <= c < s.len(),
        0 <= o < s[c].len(),
    ensures
        0 <= flat_prefix_len(s, c) + o < flat_seq(s).len(),
        flat_seq(s)[flat_prefix_len(s, c) + o] == s[c][o],
    decreases s.len(),
{
    if c == s.len() - 1 {
        assert(s.take(c) =~= s.drop_last());
        assert(s.last() == s[c]);
    } else {
        let s0 = s.drop_last();
        lemma_flat_index(s0, c, o);
        assert(s0.take(c) =~= s.take(c));
        assert(s0[c] == s[c]);
    }
}

/// An append-only sequence of chunks. All chunks but the last are full, and
/// each chunk after the first has twice the capacity of its predecessor.
pub struct ChunkStore<E> {
    chunks: Vec<Chunk<E>>,
}

impl<E> ChunkStore<E> {
    /// The contents of each chunk, in creation order.
    pub closed spec fn chunk_contents(self) -> Seq<Seq<E>> {
        self.chunks@.map_values(|c: Chunk<E>| c.items@)
    }

    /// The capacity of each chunk, in creation order.
    pub closed spec fn caps(self) -> Seq<int> {
        self.chunks@.map_values(|c: Chunk<E>| c.cap as int)
    }

    /// All stored elements, in allocation order.
    pub open spec fn elems(self) -> Seq<E> {
        flat_seq(self.chunk_contents())
    }

    pub open spec fn num_chunks(self) -> int {
        self.chunk_contents().len() as int
    }

    pub open spec fn first_cap(self) -> int {
        self.caps()[0]
    }

    pub open spec fn last_cap(self) -> int {
        self.caps().last()
    }

    pub open spec fn last_len(self) -> int {
        self.chunk_contents().last().len() as int
    }

    /// Well-formedness: at least one chunk; no chunk is over capacity; every
    /// chunk but the last is exactly full; capacities start positive and
    /// double from each chunk to the next; the total element count fits in a
    /// machine word.
    pub open spec fn wf(self) -> bool {
        &&& self.num_chunks() >= 1
        &&& forall|i: int| 0 <= i < self.num_chunks() ==> #[trigger] self.caps()[i] >= 1
        &&& forall|i: int|
            0 <= i < self.num_chunks() ==> #[trigger] self.chunk_contents()[i].len()
                <= self.caps()[i]
        &&& forall|i: int|
            0 <= i < self.num_chunks() - 1 ==> #[trigger] self.chunk_contents()[i].len()
                == self.caps()[i]
        &&& forall|i: int|
            1 <= i < self.num_chunks() ==> #[trigger] self.caps()[i] == self.caps()[i - 1] * 2
        &&& self.elems().len() <= usize::MAX
    }

    /// The next allocation can be served: there is room for one more element
    /// in the count, and either the last chunk has a free slot or the doubled
    /// capacity of a fresh chunk still fits in a machine word.
    pub open spec fn can_accept(self) -> bool {
        &&& self.elems().len() < usize::MAX
        &&& (self.last_len() < self.last_cap() || self.last_cap() * 2 <= usize::MAX)
    }

    /// `(c, o)` names a stored element: chunk `c`, offset `o` within it.
    pub open spec fn addr_valid(self, c: int, o: int) -> bool {
        0 <= c < self.num_chunks() && 0 <= o < self.chunk_contents()[c].len()
    }

    /// The position in allocation order that the address `(c, o)` maps to.
    pub open spec fn addr_index(self, c: int, o: int) -> int {
        flat_prefix_len(self.chunk_contents(), c) + o
    }

    /// The element stored at address `(c, o)`.
    pub open spec fn element_at(self, c: int, o: int) -> E {
        self.chunk_contents()[c][o]
    }

    /// The address the next allocation will return.
    pub open spec fn next_addr(self) -> (int, int) {
        if self.last_len() < self.last_cap() {
            (self.num_chunks() - 1, self.last_len())
        } else {
            (self.num_chunks(), 0)
        }
    }

    /// How one allocation changes the store: the value goes to the free slot
    /// at the end of the last chunk if there is one, and otherwise becomes the
    /// first element of a fresh chunk with twice the previous capacity. No
    /// other chunk, element or capacity changes.
    pub open spec fn allocate_post(pre: Self, post: Self, value: E) -> bool {
        if pre.last_len() < pre.last_cap() {
            &&& post.chunk_contents() == pre.chunk_contents().update(
                pre.num_chunks() - 1,
                pre.chunk_contents().last().push(value),
            )
            &&& post.caps() == pre.caps()
        } else {
            &&& post.chunk_contents() == pre.chunk_contents().push(seq![value])
            &&& post.caps() == pre.caps().push(pre.last_cap() * 2)
        }
    }

    /// Create a store with one empty chunk of capacity `cap`.
    pub fn new(cap: usize) -> (s: Self)
        requires
            1 <= cap,
        ensures
            s.wf(),
            s.elems() == Seq::<E>::empty(),
            s.caps() == seq![cap as int],
            s.first_cap() == cap,
    {
        let mut chunks: Vec<Chunk<E>> = Vec::new();
        chunks.push(Chunk { cap, items: Vec::with_capacity(cap) });
        let s = ChunkStore { chunks };
        proof {
            assert(s.chunk_contents() =~= seq![Seq::<E>::empty()]);
            assert(s.caps() =~= seq![cap as int]);
            assert(s.chunk_contents().drop_last() =~= Seq::<Seq<E>>::empty());
            assert(flat_seq(Seq::<Seq<E>>::empty()) == Seq::<E>::empty());
            assert(s.elems() =~= Seq::<E>::empty());
        }
        s
    }

    /// Total number of stored elements: the sum of the chunks' lengths.
    pub fn count(&self) -> (n: usize)
        requires
            self.wf(),
        ensures
            n == self.elems().len(),
    {
        let mut total: usize = 0;
        let mut c: usize = 0;
        while c < self.chunks.len()
            invariant
                self.wf(),
                c <= self.chunks@.len(),
                total == flat_prefix_len(self.chunk_contents(), c as int),
            decreases self.chunks@.len() - c,
        {
            proof {
                lemma_flat_take_succ(self.chunk_contents(), c as int);
                lemma_flat_prefix_le(self.chunk_contents(), c as int + 1);
            }
            total = total + self.chunks[c].items.len();
            c = c + 1;
        }
        proof {
            lemma_flat_take_all(self.chunk_contents());
        }
        total
    }

    /// Whether [`ChunkStore::allocate`] may be called right now.
    pub fn has_room(&self) -> (b: bool)
        requires
            self.wf(),
        ensures
            b == self.can_accept(),
    {
        let n = self.count();
        let last = self.chunks.len() - 1;
        let llen = self.chunks[last].items.len();
        let lcap = self.chunks[last].cap;
        proof {
            assert(self.chunk_contents().last() == self.chunks@.last().items@);
            assert(self.caps().last() == self.chunks@.last().cap as int);
        }
        n < usize::MAX && (llen < lcap || lcap <= usize::MAX / 2)
    }

    /// Store one element and return its address. The element goes to the free
    /// slot at the end of the last chunk if there is one; otherwise a fresh
    /// chunk with twice the capacity of the last is created and the element
    /// becomes its first entry. No element already stored is moved or changed.
    #[verifier::rlimit(100)]
    pub fn allocate(&mut self, value: E) -> (addr: (usize, usize))
        requires
            old(self).wf(),
            old(self).can_accept(),
        ensures
            final(self).wf(),
            Self::allocate_post(*old(self), *final(self), value),
            final(self).elems() == old(self).elems().push(value),
            final(self).first_cap() == old(self).first_cap(),
            (addr.0 as int, addr.1 as int) == old(self).next_addr(),
            final(self).addr_valid(addr.0 as int, addr.1 as int),
            final(self).element_at(addr.0 as int, addr.1 as int) == value,
            final(self).addr_index(addr.0 as int, addr.1 as int) == old(self).elems().len(),
    {
        let ghost pre = *self;
        let last = self.chunks.len() - 1;
        let llen = self.chunks[last].items.len();
        let lcap = self.chunks[last].cap;
        proof {
            assert(pre.chunk_contents().last() == pre.chunks@.last().items@);
            assert(pre.caps().last() == pre.chunks@.last().cap as int);
        }
        if llen < lcap {
            let mut ch = self.chunks.pop().unwrap();
            ch.items.push(value);
            self.chunks.push(ch);
            proof {
                assert(self.chunk_contents() =~= pre.chunk_contents().update(
                    pre.num_chunks() - 1,
                    pre.chunk_contents().last().push(value),
                ));
                assert(self.caps() =~= pre.caps());
                lemma_flat_update_last(pre.chunk_contents(), value);
                assert(self.chunk_contents().take(last as int) =~= pre.chunk_contents().take(
                    last as int,
                ));
                assert(pre.chunk_contents().take(last as int) =~= pre.chunk_contents().drop_last());
                lemma_flat_index(self.chunk_contents(), last as int, llen as int);
                assert forall|i: int| 0 <= i < self.num_chunks() implies #[trigger] self
                    .chunk_contents()[i].len() <= self.caps()[i] by {
                    if i != last as int {
                        assert(pre.chunk_contents()[i].len() <= pre.caps()[i]);
                    }
                }
                assert forall|i: int| 0 <= i < self.num_chunks() - 1 implies #[trigger] self
                    .chunk_contents()[i].len() == self.caps()[i] by {
                    assert(pre.chunk_contents()[i].len() == pre.caps()[i]);
                }
            }
            (last, llen)
        } else {
            let new_cap = lcap.checked_mul(2).unwrap();
            let mut ch = Chunk { cap: new_cap, items: Vec::with_capacity(new_cap) };
            ch.items.push(value);
            self.chunks.push(ch);
            proof {
                assert(ch.items@ =~= seq![value]);
                assert(self.chunk_contents() =~= pre.chunk_contents().push(seq![value]));
                assert(self.caps() =~= pre.caps().push(pre.last_cap() * 2));
                lemma_flat_push(pre.chunk_contents(), seq![value]);
                assert(pre.elems() + seq![value] =~= pre.elems().push(value));
                assert(self.chunk_contents().take(self.num_chunks() - 1)
                    =~= pre.chunk_contents());
                lemma_flat_index(self.chunk_contents(), last as int + 1, 0);
                assert(pre.chunk_contents().last().len() == pre.caps().last());
                assert forall|i: int| 0 <= i < self.num_chunks() implies #[trigger] self
                    .chunk_contents()[i].len() <= self.caps()[i] by {
                    if i < last as int {
                        assert(pre.chunk_contents()[i].len() <= pre.caps()[i]);
                    }
                }
                assert forall|i: int| 0 <= i < self.num_chunks() - 1 implies #[trigger] self
                    .chunk_contents()[i].len() == self.caps()[i] by {
                    if i < last as int {
                        assert(pre.chunk_contents()[i].len() == pre.caps()[i]);
                    }
                }
                assert forall|i: int| 1 <= i < self.num_chunks() implies #[trigger] self.caps()[i]
                    == self.caps()[i - 1] * 2 by {
                    if i < self.num_chunks() - 1 {
                        assert(pre.caps()[i] == pre.caps()[i - 1] * 2);
                    }
                }
            }
            (last + 1, 0)
        }
    }

    /// Read the element at position `i` in allocation order.
    pub fn get_index(&self, i: usize) -> (r: &E)
        requires
            self.wf(),
            i < self.elems().len(),
        ensures
            *r == self.elems()[i as int],
    {
        let n = self.chunks.len();
        let mut c: usize = 0;
        let mut rem: usize = i;
        while rem >= self.chunks[c].items.len()
            invariant
                self.wf(),
                i < self.elems().len(),
                n == self.chunks@.len(),
                c < n,
                flat_prefix_len(self.chunk_contents(), c as int) + rem == i,
            decreases self.chunks@.len() - c,
        {
            proof {
                lemma_flat_take_succ(self.chunk_contents(), c as int);
                lemma_flat_take_all(self.chunk_contents());
            }
            rem = rem - self.chunks[c].items.len();
            c = c + 1;
            proof {
                if c as int == self.chunk_contents().len() {
                    assert(flat_prefix_len(self.chunk_contents(), c as int) == self.elems().len());
                    assert(i >= self.elems().len());
                }
            }
        }
        proof {
            lemma_flat_index(self.chunk_contents(), c as int, rem as int);
        }
        &self.chunks[c].items[rem]
    }

    /// The store `post` is what `pre` becomes after allocating the elements of
    /// `vs`, one at a time and in order.
    pub open spec fn allocates_to(pre: Self, post: Self, vs: Seq<E>) -> bool
        decreases vs.len(),
    {
        if vs.len() == 0 {
            post.chunk_contents() == pre.chunk_contents() && post.caps() == pre.caps()
        } else {
            exists|mid: Self|
                #[trigger] Self::allocate_post(pre, mid, vs.first()) && Self::allocates_to(
                    mid,
                    post,
                    vs.drop_first(),
                )
        }
    }

    /// One allocation appends its value to the elements, in allocation order,
    /// and so grows the count by exactly one.
    pub proof fn lemma_allocate_post_elems(pre: Self, post: Self, value: E)
        requires
            pre.num_chunks() >= 1,
            Self::allocate_post(pre, post, value),
        ensures
            post.elems() == pre.elems().push(value),
            post.elems().len() == pre.elems().len() + 1,
            post.num_chunks() >= 1,
    {
        if pre.last_len() < pre.last_cap() {
            lemma_flat_update_last(pre.chunk_contents(), value);
        } else {
            lemma_flat_push(pre.chunk_contents(), seq![value]);
            assert(pre.elems() + seq![value] =~= pre.elems().push(value));
        }
    }

    /// An allocation leaves every element already stored where it is: its
    /// address stays valid, still names the same element, and still maps to
    /// the same position in allocation order.
    pub proof fn lemma_allocate_stable(pre: Self, post: Self, value: E, c: int, o: int)
        requires
            pre.num_chunks() >= 1,
            Self::allocate_post(pre, post, value),
            pre.addr_valid(c, o),
        ensures
            post.addr_valid(c, o),
            post.element_at(c, o) == pre.element_at(c, o),
            post.addr_index(c, o) == pre.addr_index(c, o),
            post.elems()[pre.addr_index(c, o)] == pre.element_at(c, o),
            pre.elems()[pre.addr_index(c, o)] == pre.element_at(c, o),
    {
        assert(post.chunk_contents().take(c) =~= pre.chunk_contents().take(c));
        lemma_flat_index(pre.chunk_contents(), c, o);
        lemma_flat_index(post.chunk_contents(), c, o);
    }

    /// Count consistency and iteration order: after any sequence of
    /// allocations, the elements are exactly the old ones followed by the
    /// allocated values in allocation order, so the count has grown by the
    /// number of allocations made.
    pub proof fn lemma_allocates_to_elems(pre: Self, post: Self, vs: Seq<E>)
        requires
            pre.num_chunks() >= 1,
            Self::allocates_to(pre, post, vs),
        ensures
            post.elems() == pre.elems() + vs,
            post.elems().len() == pre.elems().len() + vs.len(),
            post.num_chunks() >= 1,
        decreases vs.len(),
    {
        if vs.len() == 0 {
            assert(pre.elems() + vs =~= pre.elems());
        } else {
            let mid = choose|mid: Self|
                #[trigger] Self::allocate_post(pre, mid, vs.first()) && Self::allocates_to(
                    mid,
                    post,
                    vs.drop_first(),
                );
            Self::lemma_allocate_post_elems(pre, mid, vs.first());
            Self::lemma_allocates_to_elems(mid, post, vs.drop_first());
            assert(pre.elems().push(vs.first()) + vs.drop_first() =~= pre.elems() + vs);
        }
    }

    /// Address stability under growth: however many allocations follow — and
    /// however many new chunks they create — an address handed out before
    /// still names the same element at the same position.
    pub proof fn lemma_allocates_to_stable(pre: Self, post: Self, vs: Seq<E>, c: int, o: int)
        requires
            pre.num_chunks() >= 1,
            Self::allocates_to(pre, post, vs),
            pre.addr_valid(c, o),
        ensures
            post.addr_valid(c, o),
            post.element_at(c, o) == pre.element_at(c, o),
            post.addr_index(c, o) == pre.addr_index(c, o),
            post.elems()[pre.addr_index(c, o)] == pre.element_at(c, o),
        decreases vs.len(),
    {
        if vs.len() == 0 {
            lemma_flat_index(post.chunk_contents(), c, o);
            assert(post.chunk_contents().take(c) =~= pre.chunk_contents().take(c));
        } else {
            let mid = choose|mid: Self|
                #[trigger] Self::allocate_post(pre, mid, vs.first()) && Self::allocates_to(
                    mid,
                    post,
                    vs.drop_first(),
                );
            Self::lemma_allocate_post_elems(pre, mid, vs.first());
            Self::lemma_allocate_stable(pre, mid, vs.first(), c, o);
            Self::lemma_allocates_to_stable(mid, post, vs.drop_first(), c, o);
        }
    }

    /// A store that starts empty holds, after any sequence of allocations,
    /// exactly the allocated values, in allocation order.
    pub proof fn lemma_allocates_from_empty(pre: Self, post: Self, vs: Seq<E>)
        requires
            pre.num_chunks() >= 1,
            pre.elems() == Seq::<E>::empty(),
            Self::allocates_to(pre, post, vs),
        ensures
            post.elems() == vs,
    {
        Self::lemma_allocates_to_elems(pre, post, vs);
        assert(Seq::<E>::empty() + vs =~= vs);
    }
}

} // verus!
