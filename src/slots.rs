use vstd::prelude::*;

verus! {

/// Why a worker's result was not accepted.
#[derive(Clone, Copy, Debug, PartialEq, Eq)]
pub enum SlotError {
    /// No slot has this ordinal.
    OutOfRange,
    /// The slot was already written.
    AlreadyFilled,
}

/// Per-worker result slots, indexed by worker ordinal. Each slot is written
/// at most once; once all are written they are joined in ordinal order.
pub struct ResultBuffer<T> {
    slots: Vec<Option<Vec<T>>>,
}

/// Contents of the filled slots `0..n`, in ordinal order.
pub open spec fn filled_parts<T>(slots: Seq<Option<Seq<T>>>, n: int) -> Seq<Seq<T>> {
    Seq::new(n as nat, |i: int| slots[i]->Some_0)
}

/// Whether every slot holds a result.
pub open spec fn all_filled<T>(slots: Seq<Option<Seq<T>>>) -> bool {
    forall|i: int| 0 <= i < slots.len() ==> (#[trigger] slots[i]) is Some
}

impl<T> View for ResultBuffer<T> {
    type V = Seq<Option<Seq<T>>>;

    closed spec fn view(&self) -> Seq<Option<Seq<T>>> {
        Seq::new(
            self.slots@.len(),
            |i: int|
                match self.slots@[i] {
                    Some(v) => Some(v@),
                    None => None,
                },
        )
    }
}

impl<T> ResultBuffer<T> {
    /// A buffer of `n` empty slots.
    pub fn new(n: usize) -> (r: Self)
        ensures
            r@ == Seq::new(n as nat, |i: int| None::<Seq<T>>),
    {
        let mut slots: Vec<Option<Vec<T>>> = Vec::new();
        let mut i: usize = 0;
        while i < n
            invariant
                0 <= i <= n,
                slots@.len() == i,
                forall|j: int| 0 <= j < i ==> (#[trigger] slots@[j]) is None,
            decreases n - i,
        {
            slots.push(None);
            i = i + 1;
        }
        let r = ResultBuffer { slots };
        assert(r@ =~= Seq::new(n as nat, |i: int| None::<Seq<T>>));
        r
    }

    /// Number of slots.
    pub fn len(&self) -> (r: usize)
        ensures
            r == self@.len(),
    {
        self.slots.len()
    }

    /// Stores `part` as the result of worker `c`. A slot that does not exist
    /// or was already written is left as it was, and the call fails.
    pub fn publish(&mut self, c: usize, part: Vec<T>) -> (r: Result<(), SlotError>)
        ensures
            c >= old(self)@.len() <==> r == Err::<(), SlotError>(SlotError::OutOfRange),
            (c < old(self)@.len() && old(self)@[c as int] is Some) <==> r == Err::<(), SlotError>(
                SlotError::AlreadyFilled,
            ),
            r is Err ==> final(self)@ == old(self)@,
            r is Ok ==> final(self)@ == old(self)@.update(c as int, Some(part@)),
    {
        if c >= self.slots.len() {
            return Err(SlotError::OutOfRange);
        }
        if self.slots[c].is_some() {
            return Err(SlotError::AlreadyFilled);
        }
        let ghost before = self@;
        self.slots.set(c, Some(part));
        assert(self@ =~= before.update(c as int, Some(part@)));
        Ok(())
    }

    /// Whether every worker has published its result.
    pub fn is_complete(&self) -> (r: bool)
        ensures
            r == all_filled(self@),
    {
        let mut i: usize = 0;
        while i < self.slots.len()
            invariant
                0 <= i <= self.slots@.len(),
                forall|j: int| 0 <= j < i ==> (#[trigger] self@[j]) is Some,
            decreases self.slots@.len() - i,
        {
            if self.slots[i].is_none() {
                assert(self@[i as int] is None);
                return false;
            }
            i = i + 1;
        }
        true
    }

    /// Joins the results in ordinal order, or gives `None` while a slot is
    /// still empty.
    pub fn merge(self) -> (r: Option<Vec<T>>)
        ensures
            r is None <==> !all_filled(self@),
            r is Some ==> r->Some_0@ == filled_parts(self@, self@.len() as int).flatten(),
    {
        if !self.is_complete() {
            return None;
        }
        let ghost view = self@;
        let total = self.slots.len();
        let ghost n = total as int;
        assert(filled_parts(view, 0) =~= Seq::<Seq<T>>::empty());
        let mut slots = self.slots;
        assert forall|j: int| 0 <= j < slots@.len() implies match #[trigger] slots@[j] {
            Some(v) => view[0 + j] == Some(v@),
            None => false,
        } by {
            assert(view[j] is Some);
        }
        let mut out: Vec<T> = Vec::new();
        let mut i: usize = 0;
        while slots.len() > 0
            invariant
                all_filled(view),
                view.len() == n,
                n <= usize::MAX,
                0 <= i <= n,
                slots@.len() == n - i,
                forall|j: int|
                    0 <= j < slots@.len() ==> match #[trigger] slots@[j] {
                        Some(v) => view[i + j] == Some(v@),
                        None => false,
                    },
                out@ == filled_parts(view, i as int).flatten(),
            decreases slots@.len(),
        {
            let ghost rest = slots@;
            let head = slots.remove(0);
            assert(rest[0] is Some);
            let mut part = match head {
                Some(v) => v,
                None => Vec::new(),
            };
            let ghost p = part@;
            assert(view[i as int] == Some(p));
            out.append(&mut part);
            proof {
                let prev = filled_parts(view, i as int);
                prev.lemma_flatten_push(p);
                assert(filled_parts(view, i + 1) =~= prev.push(p));
                assert forall|j: int| 0 <= j < slots@.len() implies match #[trigger] slots@[j] {
                    Some(v) => view[i + 1 + j] == Some(v@),
                    None => false,
                } by {
                    assert(slots@[j] == rest[j + 1]);
                }
            }
            i = i + 1;
        }
        Some(out)
    }
}

} // verus!
