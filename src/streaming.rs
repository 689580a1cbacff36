use vstd::prelude::*;
use vstd::string::*;
use vstd::utf8::encode_utf8;

verus! {

/// Splits `s` into consecutive batches of `n` items, the last one
/// possibly shorter. An empty sequence (or `n == 0`) gives no batch.
pub open spec fn chunks_of<T>(s: Seq<T>, n: nat) -> Seq<Seq<T>>
    decreases s.len(),
{
    if s.len() == 0 || n == 0 {
        Seq::empty()
    } else if s.len() <= n {
        seq![s]
    } else {
        seq![s.take(n as int)] + chunks_of(s.skip(n as int), n)
    }
}

/// The number of batches of size `n` needed to hold `len` items.
pub open spec fn ceil_div(len: nat, n: nat) -> nat
    recommends
        n > 0,
{
    ((len + n - 1) / (n as int)) as nat
}

/// Batching `s` by `n` gives `ceil(len / n)` batches; all but the last hold
/// exactly `n` items, and the last holds what is left over (`n` when the
/// length is an exact multiple of `n`).
pub proof fn lemma_chunk_shape<T>(s: Seq<T>, n: nat)
    requires
        n > 0,
    ensures
        chunks_of(s, n).len() == ceil_div(s.len(), n),
        forall|i: int| 0 <= i < chunks_of(s, n).len() - 1 ==> #[trigger] chunks_of(s, n)[i].len() == n,
        s.len() > 0 ==> chunks_of(s, n).last().len() == s.len() - n * (chunks_of(s, n).len() - 1),
    decreases s.len(),
{
    let c = chunks_of(s, n);
    if s.len() == 0 {
        assert(ceil_div(0, n) == 0) by (nonlinear_arith)
            requires
                n > 0,
        ;
    } else if s.len() <= n {
        assert(ceil_div(s.len(), n) == 1) by (nonlinear_arith)
            requires
                n > 0,
                0 < s.len() <= n,
        ;
        assert(c.len() == 1);
        assert(c.last() == s);
        assert(n * (c.len() - 1) == 0) by (nonlinear_arith)
            requires
                c.len() == 1,
        ;
    } else {
        let t = s.skip(n as int);
        lemma_chunk_shape(t, n);
        let ct = chunks_of(t, n);
        assert(c == seq![s.take(n as int)] + ct);
        let l = s.len();
        vstd::arithmetic::div_mod::lemma_div_plus_one((l - n) + n - 1, n as int);
        assert(l + n - 1 == n + ((l - n) + n - 1));
        assert(ceil_div(l, n) == ceil_div((l - n) as nat, n) + 1);
        assert forall|i: int| 0 <= i < c.len() - 1 implies #[trigger] c[i].len() == n by {
            if i > 0 {
                assert(c[i] == ct[i - 1]);
            }
        }
        assert(c.last() == ct.last());
        assert(t.len() > 0);
        assert(ct.len() > 0);
        assert(c.len() == ct.len() + 1);
        let k = ct.len() as int;
        assert(n * k == n + n * (k - 1)) by (nonlinear_arith);
        assert(ct.last().len() == t.len() - n * (k - 1));
        assert(t.len() == l - n);
        assert(c.last().len() == l - n * k);
        assert(c.len() - 1 == k);
    }
}

/// A source with no items gives no batch.
pub proof fn lemma_empty_source<T>(n: nat)
    ensures
        chunks_of(Seq::<T>::empty(), n) == Seq::<Seq<T>>::empty(),
{
}

/// Joining the batches back together gives the source, in order, with
/// nothing lost or repeated.
pub proof fn lemma_chunks_concat<T>(s: Seq<T>, n: nat)
    requires
        n > 0,
    ensures
        chunks_of(s, n).flatten() == s,
    decreases s.len(),
{
    let c = chunks_of(s, n);
    if s.len() == 0 {
    } else if s.len() <= n {
        c.lemma_flatten_one_element();
    } else {
        let t = s.skip(n as int);
        lemma_chunks_concat(t, n);
        assert(c.drop_first() =~= chunks_of(t, n));
        assert(s.take(n as int) + t =~= s);
    }
}

/// What one pull of a file-backed sequence yields, given the outcome of a
/// one-byte read (`None` for a failed read) and the byte buffer after it:
/// the byte when one was read, and exhaustion on end of file or on error.
pub fn read_outcome(read: Option<usize>, byte: u8) -> (r: Option<u8>)
    ensures
        r == (if read matches Some(k) && k > 0 {
            Some(byte)
        } else {
            None::<u8>
        }),
{
    match read {
        Some(k) if k > 0 => Some(byte),
        _ => None,
    }
}

/// A lazy, single-consumer sequence over an owned source of items.
///
/// Each pull hands out the item under the cursor and moves the cursor on;
/// once the cursor reaches the end every further pull reports exhaustion.
pub struct Streaming<T> {
    inner: Vec<T>,
    offset: usize,
    len: usize,
}

impl<T> Streaming<T> {
    #[verifier::type_invariant]
    spec fn cursor_in_bounds(self) -> bool {
        self.offset <= self.len && self.len == self.inner@.len()
    }

    /// Every item of the source, in order.
    pub closed spec fn items(&self) -> Seq<T> {
        self.inner@
    }

    /// How many items have been handed out so far.
    pub closed spec fn consumed(&self) -> nat {
        self.offset as nat
    }

    /// The items that later pulls will hand out, in order.
    pub closed spec fn remaining(&self) -> Seq<T> {
        self.inner@.subrange(self.offset as int, self.len as int)
    }
}

impl<T: Copy> Streaming<T> {
    /// A sequence over all of `data`, with nothing consumed yet.
    pub fn new(data: Vec<T>) -> (r: Self)
        ensures
            r.items() == data@,
            r.consumed() == 0,
            r.remaining() == data@,
    {
        let len = data.len();
        let r = Streaming { inner: data, offset: 0, len };
        assert(r.inner@.subrange(0, len as int) =~= r.inner@);
        r
    }

    /// A sequence over the items of a fixed-size array.
    pub fn from_array<const N: usize>(data: [T; N]) -> (r: Self)
        ensures
            r.items() == data@,
            r.consumed() == 0,
            r.remaining() == data@,
    {
        Self::new(vstd::slice::slice_to_vec(data.as_slice()))
    }

    /// A sequence over the items of a boxed slice.
    pub fn from_boxed(data: Box<[T]>) -> (r: Self)
        ensures
            r.items() == data@,
            r.consumed() == 0,
            r.remaining() == data@,
    {
        Self::new(data.into_vec())
    }

    /// Number of items not handed out yet.
    pub fn remaining_len(&self) -> (r: usize)
        ensures
            r == self.remaining().len(),
    {
        proof {
            use_type_invariant(self);
        }
        self.len - self.offset
    }

    /// Hands out the next item, or `None` once the source is exhausted.
    pub fn pull(&mut self) -> (r: Option<T>)
        ensures
            final(self).items() == old(self).items(),
            old(self).remaining().len() == 0 ==> r is None && final(self).remaining() == old(
                self,
            ).remaining() && final(self).consumed() == old(self).consumed(),
            old(self).remaining().len() > 0 ==> r == Some(old(self).remaining()[0])
                && final(self).remaining() == old(self).remaining().drop_first()
                && final(self).consumed() == old(self).consumed() + 1,
    {
        proof {
            use_type_invariant(&*self);
        }
        if self.offset >= self.len {
            return None;
        }
        let item = self.inner[self.offset];
        self.offset = self.offset + 1;
        proof {
            assert(self.remaining() =~= old(self).remaining().drop_first());
        }
        Some(item)
    }

    /// Pulls the next batch of at most `n` items; `None` once exhausted.
    pub fn next_chunk(&mut self, n: usize) -> (r: Option<Vec<T>>)
        requires
            n > 0,
        ensures
            final(self).items() == old(self).items(),
            old(self).remaining().len() == 0 <==> r is None,
            r is None ==> final(self).remaining() == old(self).remaining() && final(self).consumed()
                == old(self).consumed(),
            r matches Some(c) ==> {
                &&& c@ == chunks_of(old(self).remaining(), n as nat)[0]
                &&& 0 < c@.len() <= n
                &&& c@ == old(self).remaining().take(c@.len() as int)
                &&& final(self).remaining() == old(self).remaining().skip(c@.len() as int)
                &&& final(self).consumed() == old(self).consumed() + c@.len()
                &&& chunks_of(old(self).remaining(), n as nat) == seq![c@] + chunks_of(
                    final(self).remaining(),
                    n as nat,
                )
            },
    {
        proof {
            use_type_invariant(&*self);
        }
        if self.offset >= self.len {
            return None;
        }
        let ghost rem0 = self.remaining();
        let mut c: Vec<T> = Vec::new();
        while c.len() < n
            invariant
                self.inner@ == old(self).inner@,
                self.len == old(self).len,
                self.offset == old(self).offset + c@.len(),
                c@.len() <= n,
                c@ == rem0.take(c@.len() as int),
                self.remaining() == rem0.skip(c@.len() as int),
                self.consumed() == old(self).consumed() + c@.len(),
                rem0 == old(self).remaining(),
                rem0.len() > 0,
            ensures
                c@.len() == n || self.offset >= self.len,
            decreases n - c@.len(),
        {
            proof {
                use_type_invariant(&*self);
            }
            if self.offset >= self.len {
                break;
            }
            let item = self.inner[self.offset];
            self.offset = self.offset + 1;
            c.push(item);
            proof {
                assert(self.remaining() =~= rem0.skip(c@.len() as int));
                assert(c@ =~= rem0.take(c@.len() as int));
            }
        }
        proof {
            use_type_invariant(&*self);
            if c@.len() < n {
                assert(self.remaining().len() == 0);
            }
            let rest = self.remaining();
            if rem0.len() <= n {
                assert(rem0.take(c@.len() as int) =~= rem0);
                assert(rest =~= Seq::<T>::empty());
                assert(chunks_of(rest, n as nat) =~= Seq::<Seq<T>>::empty());
                assert(seq![c@] + chunks_of(rest, n as nat) =~= seq![c@]);
            }
            assert(c@.len() > 0);
        }
        Some(c)
    }

    /// Drains the sequence, batching its remaining items `n` at a time.
    pub fn chunks(self, n: usize) -> (r: Vec<Vec<T>>)
        requires
            n > 0,
        ensures
            r@.map_values(|c: Vec<T>| c@) == chunks_of(self.remaining(), n as nat),
    {
        let mut s = self;
        let mut out: Vec<Vec<T>> = Vec::new();
        loop
            invariant
                n > 0,
                out@.map_values(|c: Vec<T>| c@) + chunks_of(s.remaining(), n as nat) == chunks_of(
                    self.remaining(),
                    n as nat,
                ),
            decreases s.remaining().len(),
        {
            let ghost before = s.remaining();
            let ghost done = out@.map_values(|c: Vec<T>| c@);
            match s.next_chunk(n) {
                None => {
                    assert(chunks_of(before, n as nat) =~= Seq::<Seq<T>>::empty());
                    assert(done + chunks_of(before, n as nat) =~= done);
                    return out;
                },
                Some(c) => {
                    let ghost cv = c@;
                    out.push(c);
                    assert(out@.map_values(|c: Vec<T>| c@) =~= done.push(cv));
                    assert(done.push(cv) + chunks_of(s.remaining(), n as nat) =~= done + (seq![cv]
                        + chunks_of(s.remaining(), n as nat)));
                },
            }
        }
    }
}

impl Streaming<u8> {
    /// A sequence over the UTF-8 bytes of a string slice.
    pub fn from_str_bytes(data: &str) -> (r: Self)
        ensures
            r.items() == encode_utf8(data@),
            r.consumed() == 0,
            r.remaining() == encode_utf8(data@),
    {
        Self::new(vstd::slice::slice_to_vec(data.as_bytes()))
    }

    /// A sequence over the UTF-8 bytes of an owned string.
    pub fn from_string(data: String) -> (r: Self)
        ensures
            r.items() == encode_utf8(data@),
            r.consumed() == 0,
            r.remaining() == encode_utf8(data@),
    {
        Self::from_str_bytes(data.as_str())
    }
}


impl<T: Copy> From<Vec<T>> for Streaming<T> {
    fn from(data: Vec<T>) -> (r: Self) {
        let len = data.len();
        Streaming { inner: data, offset: 0, len }
    }
}

impl<T: Copy> vstd::std_specs::convert::FromSpecImpl<Vec<T>> for Streaming<T> {
    open spec fn obeys_from_spec() -> bool {
        true
    }

    closed spec fn from_spec(data: Vec<T>) -> Self {
        Streaming { inner: data, offset: 0, len: data@.len() as usize }
    }
}

impl<T: Copy, const N: usize> From<[T; N]> for Streaming<T> {
    fn from(data: [T; N]) -> (r: Self) {
        Self::from_array(data)
    }
}

impl<T: Copy, const N: usize> vstd::std_specs::convert::FromSpecImpl<[T; N]> for Streaming<T> {
    open spec fn obeys_from_spec() -> bool {
        false
    }

    open spec fn from_spec(data: [T; N]) -> Self {
        arbitrary()
    }
}

impl<T: Copy> From<Box<[T]>> for Streaming<T> {
    fn from(data: Box<[T]>) -> (r: Self) {
        Self::from_boxed(data)
    }
}

impl<T: Copy> vstd::std_specs::convert::FromSpecImpl<Box<[T]>> for Streaming<T> {
    open spec fn obeys_from_spec() -> bool {
        false
    }

    open spec fn from_spec(data: Box<[T]>) -> Self {
        arbitrary()
    }
}

impl From<String> for Streaming<u8> {
    fn from(data: String) -> (r: Self) {
        Self::from_string(data)
    }
}

impl vstd::std_specs::convert::FromSpecImpl<String> for Streaming<u8> {
    open spec fn obeys_from_spec() -> bool {
        false
    }

    open spec fn from_spec(data: String) -> Self {
        arbitrary()
    }
}

impl From<&'static str> for Streaming<u8> {
    fn from(data: &'static str) -> (r: Self) {
        Self::from_str_bytes(data)
    }
}

impl vstd::std_specs::convert::FromSpecImpl<&'static str> for Streaming<u8> {
    open spec fn obeys_from_spec() -> bool {
        false
    }

    open spec fn from_spec(data: &'static str) -> Self {
        arbitrary()
    }
}

} // verus!
