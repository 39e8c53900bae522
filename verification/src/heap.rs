use std::rc::Rc;
use vstd::prelude::*;
use crate::object::Object;

verus! {

/// The number of pointers to an object that the heap itself holds: one in
/// its table and one in its list.
pub const NUM_INTERNAL_REFS: usize = 2;

/// A node of the heap's list of live objects.
struct LLNode<T> {
    item: Rc<T>,
    next: Option<Box<LLNode<T>>>,
}

/// The strings of the objects in a list, first node first.
spec fn list_texts(node: Option<Box<LLNode<Object>>>) -> Seq<Seq<char>>
    decreases node,
{
    match node {
        None => seq![],
        Some(n) => seq![(*n.item)@] + list_texts(n.next),
    }
}

/// The entries of `list` whose count is not `NUM_INTERNAL_REFS`, in order:
/// an object that only the heap points to is dropped.
pub open spec fn kept(list: Seq<Seq<char>>, counts: Seq<usize>) -> Seq<Seq<char>>
    decreases list.len(),
{
    if list.len() == 0 {
        seq![]
    } else {
        let rest = kept(list.drop_first(), counts.drop_first());
        if counts[0] == NUM_INTERNAL_REFS {
            rest
        } else {
            seq![list[0]] + rest
        }
    }
}

/// Sweeping with counts drops exactly the objects that only the heap points
/// to: an object with a count other than 2 (one that the rest of the program
/// also points to) stays in the list, one with a count of 2 goes, nothing
/// goes when no count is 2, and everything goes when every count is.
pub proof fn lemma_sweep_drops_only_unshared(list: Seq<Seq<char>>, counts: Seq<usize>)
    requires
        counts.len() == list.len(),
    ensures
        forall|k: int| 0 <= k < list.len() && counts[k] != 2 ==> kept(list, counts).contains(
            #[trigger] list[k],
        ),
        (forall|k: int| 0 <= k < counts.len() ==> #[trigger] counts[k] != 2) ==> kept(list, counts)
            == list,
        (forall|k: int| 0 <= k < counts.len() ==> #[trigger] counts[k] == 2) ==> kept(list, counts)
            == Seq::<Seq<char>>::empty(),
    decreases list.len(),
{
    if list.len() > 0 {
        let rl = list.drop_first();
        let rc = counts.drop_first();
        lemma_sweep_drops_only_unshared(rl, rc);
        let rest = kept(rl, rc);
        assert forall|k: int| 0 <= k < list.len() && counts[k] != 2 implies kept(list, counts).contains(
            #[trigger] list[k],
        ) by {
            if k == 0 {
                assert(kept(list, counts)[0] == list[0]);
            } else {
                assert(rl[k - 1] == list[k] && rc[k - 1] == counts[k]);
                let m = choose|m: int| 0 <= m < rest.len() && rest[m] == list[k];
                if counts[0] == 2 {
                    assert(kept(list, counts)[m] == list[k]);
                } else {
                    assert(kept(list, counts)[m + 1] == list[k]);
                }
            }
        }
        if forall|k: int| 0 <= k < counts.len() ==> #[trigger] counts[k] != 2 {
            assert forall|k: int| 0 <= k < rc.len() implies #[trigger] rc[k] != 2 by {
                assert(rc[k] == counts[k + 1]);
            }
            assert(kept(list, counts) =~= list);
        }
        if forall|k: int| 0 <= k < counts.len() ==> #[trigger] counts[k] == 2 {
            assert forall|k: int| 0 <= k < rc.len() implies #[trigger] rc[k] == 2 by {
                assert(rc[k] == counts[k + 1]);
            }
            assert(counts[0] == 2);
        }
    }
}

/// The state after adding a string to a heap whose table holds `interned`
/// and whose list holds `listed`: a string already in the table changes
/// nothing; a new one is appended to the table and put at the front of the list.
pub open spec fn heap_after_add(interned: Seq<Seq<char>>, listed: Seq<Seq<char>>, s: Seq<char>) -> (
    Seq<Seq<char>>,
    Seq<Seq<char>>,
) {
    if interned.contains(s) {
        (interned, listed)
    } else {
        (interned.push(s), seq![s] + listed)
    }
}

/// Adding a string that is already there changes nothing: adding the same
/// string twice leaves the heap as adding it once.
pub proof fn lemma_add_twice(interned: Seq<Seq<char>>, listed: Seq<Seq<char>>, s: Seq<char>)
    ensures
        ({
            let (i1, l1) = heap_after_add(interned, listed, s);
            heap_after_add(i1, l1, s) == (i1, l1)
        }),
{
    let (i1, l1) = heap_after_add(interned, listed, s);
    if !interned.contains(s) {
        assert(i1[i1.len() - 1] == s);
    }
}

/// After an add, the table holds the string, and holds no string twice if
/// it held none twice before.
pub proof fn lemma_add_interns(interned: Seq<Seq<char>>, listed: Seq<Seq<char>>, s: Seq<char>)
    requires
        interned.no_duplicates(),
    ensures
        heap_after_add(interned, listed, s).0.contains(s),
        heap_after_add(interned, listed, s).0.no_duplicates(),
{
    let i1 = heap_after_add(interned, listed, s).0;
    if !interned.contains(s) {
        assert(i1[i1.len() - 1] == s);
    }
}

/// Collecting garbage keeps a subsequence of the list: every string left in
/// the list was there before.
pub proof fn lemma_kept_from_list(list: Seq<Seq<char>>, counts: Seq<usize>, s: Seq<char>)
    requires
        counts.len() == list.len(),
        kept(list, counts).contains(s),
    ensures
        list.contains(s),
    decreases list.len(),
{
    if list.len() > 0 {
        let rest = kept(list.drop_first(), counts.drop_first());
        if counts[0] == NUM_INTERNAL_REFS || s != list[0] {
            if counts[0] != NUM_INTERNAL_REFS {
                let k = choose|k: int| 0 <= k < kept(list, counts).len() && kept(list, counts)[k] == s;
                assert(rest[k - 1] == s);
            }
            lemma_kept_from_list(list.drop_first(), counts.drop_first(), s);
            let k = choose|k: int| 0 <= k < list.drop_first().len() && list.drop_first()[k] == s;
            assert(list[k + 1] == s);
        } else {
            assert(list[0] == s);
        }
    }
}

/// Calls `Rc::clone`, which std documents as making another pointer to the
/// same allocation.
#[verifier::external_body]
fn rc_clone(r: &Rc<Object>) -> (c: Rc<Object>)
    ensures
        *c == **r,
{
    Rc::clone(r)
}

/// Calls `Rc::strong_count`: the number of pointers to the allocation. It
/// depends on every pointer the program holds, so nothing is said of it
/// beyond the one the argument is.
#[verifier::external_body]
fn strong_count(r: &Rc<Object>) -> (n: usize)
    ensures
        n >= 1,
{
    Rc::strong_count(r)
}

/// The list without the nodes whose count, given from index `k` of
/// `counts` on, is `NUM_INTERNAL_REFS`.
fn sweep(node: Option<Box<LLNode<Object>>>, counts: &Vec<usize>, k: usize) -> (r: Option<
    Box<LLNode<Object>>,
>)
    requires
        k + list_texts(node).len() == counts@.len(),
    ensures
        list_texts(r) == kept(list_texts(node), counts@.skip(k as int)),
    decreases node,
{
    let ghost whole = list_texts(node);
    match node {
        None => {
            assert(kept(whole, counts@.skip(k as int)) =~= Seq::<Seq<char>>::empty());
            None
        },
        Some(boxed) => {
            let ghost head = (*boxed.item)@;
            assert(whole == seq![head] + list_texts(boxed.next));
            let LLNode { item, next } = *boxed;
            let ghost texts = list_texts(next);
            assert(counts@.skip(k as int).drop_first() =~= counts@.skip(k + 1));
            let count = counts[k];
            let n: usize = counts.len();
            assert(k < n);
            let rest = sweep(next, counts, k + 1);
            assert(whole.drop_first() =~= texts);
            if count == NUM_INTERNAL_REFS {
                rest
            } else {
                let r = Some(Box::new(LLNode { item, next: rest }));
                assert(list_texts(r) == seq![head] + list_texts(rest));
                r
            }
        },
    }
}

/// The objects of the program, each string held once.
pub struct ObjectHeap {
    first_obj: Option<Box<LLNode<Object>>>,
    objs: Vec<Rc<Object>>,
}

impl ObjectHeap {
    /// The strings of the heap's table, oldest first.
    pub closed spec fn interned(&self) -> Seq<Seq<char>> {
        self.objs@.map_values(|r: Rc<Object>| (*r)@)
    }

    /// The strings of the heap's list, newest first.
    pub closed spec fn listed(&self) -> Seq<Seq<char>> {
        list_texts(self.first_obj)
    }

    /// No string is in the table twice.
    pub closed spec fn wf(&self) -> bool {
        self.interned().no_duplicates()
    }

    pub fn new() -> (r: Self)
        ensures
            r.wf(),
            r.interned() == Seq::<Seq<char>>::empty(),
            r.listed() == Seq::<Seq<char>>::empty(),
    {
        let r = ObjectHeap { first_obj: None, objs: Vec::new() };
        assert(r.interned() =~= Seq::<Seq<char>>::empty());
        r
    }

    /// The object holding the string of `obj`: the one already in the heap,
    /// or `obj` itself, added.
    pub fn add(&mut self, obj: Object) -> (r: Rc<Object>)
        requires
            old(self).wf(),
        ensures
            final(self).wf(),
            (*r)@ == obj@,
            (final(self).interned(), final(self).listed()) == heap_after_add(
                old(self).interned(),
                old(self).listed(),
                obj@,
            ),
    {
        let rc = Rc::new(obj);
        let mut k: usize = 0;
        while k < self.objs.len()
            invariant
                0 <= k <= self.objs@.len(),
                self.wf(),
                self.interned() == old(self).interned(),
                self.listed() == old(self).listed(),
                forall|m: int| 0 <= m < k ==> self.interned()[m] != (*rc)@,
                (*rc)@ == obj@,
            decreases self.objs@.len() - k,
        {
            if *self.objs[k] == *rc {
                assert(self.interned()[k as int] == (*rc)@);
                return rc_clone(&self.objs[k]);
            }
            k = k + 1;
        }
        assert(!self.interned().contains(obj@));
        let ghost before = self.interned();
        self.objs.push(rc_clone(&rc));
        assert(self.interned() =~= before.push(obj@));
        let next = self.first_obj.take();
        let item = rc_clone(&rc);
        self.first_obj = Some(Box::new(LLNode { item, next }));
        match &self.first_obj {
            Some(node) => rc_clone(&node.item),
            None => rc,
        }
    }

    /// The pointer counts of the list's objects, first node first.
    fn strong_counts(&self) -> (r: Vec<usize>)
        ensures
            r@.len() == self.listed().len(),
            forall|k: int| 0 <= k < r@.len() ==> #[trigger] r@[k] >= 1,
    {
        let mut counts: Vec<usize> = Vec::new();
        let mut cur: &Option<Box<LLNode<Object>>> = &self.first_obj;
        while cur.is_some()
            invariant
                counts@.len() + list_texts(*cur).len() == list_texts(self.first_obj).len(),
                forall|k: int| 0 <= k < counts@.len() ==> #[trigger] counts@[k] >= 1,
            decreases list_texts(*cur).len(),
        {
            match cur {
                Some(node) => {
                    counts.push(strong_count(&node.item));
                    cur = &node.next;
                },
                None => {},
            }
        }
        counts
    }

    /// Removes from the list every object whose count, given in list order,
    /// is `NUM_INTERNAL_REFS`. The table is left as it is.
    pub fn collect_garbage_with(&mut self, counts: &Vec<usize>)
        requires
            old(self).wf(),
            counts@.len() == old(self).listed().len(),
        ensures
            final(self).wf(),
            final(self).interned() == old(self).interned(),
            final(self).listed() == kept(old(self).listed(), counts@),
    {
        let list = self.first_obj.take();
        assert(counts@.skip(0) =~= counts@);
        self.first_obj = sweep(list, counts, 0);
    }

    /// Removes from the list the objects that only the heap points to. Which
    /// those are depends on the pointers the rest of the program holds; what
    /// remains is the list with some of its objects left out, in order.
    pub fn collect_garbage(&mut self)
        requires
            old(self).wf(),
        ensures
            final(self).wf(),
            final(self).interned() == old(self).interned(),
            exists|counts: Seq<usize>|
                counts.len() == old(self).listed().len() && (forall|k: int|
                    0 <= k < counts.len() ==> #[trigger] counts[k] >= 1) && final(self).listed() == kept(
                    old(self).listed(),
                    counts,
                ),
    {
        let counts = self.strong_counts();
        self.collect_garbage_with(&counts);
    }
}

} // verus!
