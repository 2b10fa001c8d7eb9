//! A least-recently-used cache of per-page data with two budgets: how many
//! pages and how many elements in all.
use vstd::prelude::*;
use std::collections::VecDeque;

verus! {

/// A cached page: its index, how many elements it holds, and its data.
#[derive(Clone, Debug)]
pub struct VisualPageCacheEntry<P> {
    pub page_index: usize,
    pub element_count: usize,
    pub page: P,
}

/// Pages kept from least to most recently used, within a page budget and an
/// element budget.
pub struct VisualPageCache<P> {
    entries: VecDeque<VisualPageCacheEntry<P>>,
    max_pages: usize,
    max_elements: usize,
    current_elements: usize,
}

/// The elements held by a list of entries.
pub open spec fn total_elements<P>(entries: Seq<VisualPageCacheEntry<P>>) -> nat
    decreases entries.len(),
{
    if entries.len() == 0 {
        0
    } else {
        total_elements(entries.drop_last()) + entries.last().element_count as nat
    }
}

/// Where page `page_index` is, or -1.
pub open spec fn page_position<P>(entries: Seq<VisualPageCacheEntry<P>>, page_index: usize) -> int
    decreases entries.len(),
{
    if entries.len() == 0 {
        -1
    } else if entries[0].page_index == page_index {
        0
    } else {
        let r = page_position(entries.drop_first(), page_index);
        if r < 0 {
            -1
        } else {
            r + 1
        }
    }
}

/// Dropping the least recently used pages while over a budget.
pub open spec fn evict_pages<P>(entries: Seq<VisualPageCacheEntry<P>>, max_pages: nat, max_elements: nat) -> Seq<
    VisualPageCacheEntry<P>,
>
    decreases entries.len(),
{
    if entries.len() > 0 && (entries.len() > max_pages || total_elements(entries) > max_elements) {
        evict_pages(entries.drop_first(), max_pages, max_elements)
    } else {
        entries
    }
}

/// The entries without the one of page `page_index`, if there is one.
pub open spec fn without_page<P>(entries: Seq<VisualPageCacheEntry<P>>, page_index: usize) -> Seq<
    VisualPageCacheEntry<P>,
> {
    let p = page_position(entries, page_index);
    if p >= 0 {
        entries.remove(p)
    } else {
        entries
    }
}

/// The entries after storing a page: any entry of the same page goes; a
/// page over the element budget is not kept; else it becomes the most
/// recently used, and the least recently used go while over a budget.
pub open spec fn inserted<P>(
    entries: Seq<VisualPageCacheEntry<P>>,
    e: VisualPageCacheEntry<P>,
    max_pages: nat,
    max_elements: nat,
) -> Seq<VisualPageCacheEntry<P>> {
    let p = page_position(entries, e.page_index);
    let rest = if p >= 0 {
        entries.remove(p)
    } else {
        entries
    };
    if e.element_count > max_elements {
        rest
    } else {
        evict_pages(rest.push(e), max_pages, max_elements)
    }
}

pub proof fn lemma_total_elements_push<P>(entries: Seq<VisualPageCacheEntry<P>>, e: VisualPageCacheEntry<P>)
    ensures
        total_elements(entries.push(e)) == total_elements(entries) + e.element_count,
{
    assert(entries.push(e).drop_last() =~= entries);
}

pub proof fn lemma_total_elements_drop_first<P>(entries: Seq<VisualPageCacheEntry<P>>)
    requires
        entries.len() > 0,
    ensures
        total_elements(entries) == entries[0].element_count + total_elements(entries.drop_first()),
    decreases entries.len(),
{
    if entries.len() > 1 {
        lemma_total_elements_drop_first(entries.drop_last());
        assert(entries.drop_last().drop_first() =~= entries.drop_first().drop_last());
    } else {
        assert(entries.drop_first() =~= seq![]);
        assert(entries.drop_last() =~= seq![]);
    }
}

pub proof fn lemma_total_elements_remove<P>(entries: Seq<VisualPageCacheEntry<P>>, i: int)
    requires
        0 <= i < entries.len(),
    ensures
        total_elements(entries) == entries[i].element_count + total_elements(entries.remove(i)),
    decreases entries.len(),
{
    if i == entries.len() - 1 {
        assert(entries.remove(i) =~= entries.drop_last());
    } else {
        lemma_total_elements_remove(entries.drop_last(), i);
        assert(entries.remove(i).drop_last() =~= entries.drop_last().remove(i));
        assert(entries.remove(i).last() == entries.last());
    }
}

pub proof fn lemma_page_position<P>(entries: Seq<VisualPageCacheEntry<P>>, page_index: usize)
    ensures
        -1 <= page_position(entries, page_index) < entries.len(),
        page_position(entries, page_index) >= 0 ==> entries[page_position(entries, page_index)].page_index
            == page_index,
        page_position(entries, page_index) < 0 ==> forall|k: int|
            0 <= k < entries.len() ==> entries[k].page_index != page_index,
        forall|k: int| 0 <= k < page_position(entries, page_index) ==> entries[k].page_index != page_index,
    decreases entries.len(),
{
    if entries.len() > 0 && entries[0].page_index != page_index {
        lemma_page_position(entries.drop_first(), page_index);
        assert forall|k: int| 0 < k < entries.len() implies entries[k] == entries.drop_first()[k - 1] by {}
    }
}

pub proof fn lemma_evict_within<P>(entries: Seq<VisualPageCacheEntry<P>>, max_pages: nat, max_elements: nat)
    ensures
        evict_pages(entries, max_pages, max_elements).len() <= max_pages,
        total_elements(evict_pages(entries, max_pages, max_elements)) <= max_elements,
    decreases entries.len(),
{
    if entries.len() > 0 && (entries.len() > max_pages || total_elements(entries) > max_elements) {
        lemma_evict_within(entries.drop_first(), max_pages, max_elements);
    } else if entries.len() == 0 {
        assert(total_elements(entries) == 0);
    }
}

impl<P> VisualPageCache<P> {
    #[verifier::type_invariant]
    spec fn well_formed(self) -> bool {
        &&& self.current_elements == total_elements(self.entries@)
        &&& self.entries@.len() <= self.max_pages
        &&& self.current_elements <= self.max_elements
        &&& self.max_pages >= 1
        &&& self.max_elements >= 1
    }

    /// The cached pages, least recently used first.
    pub closed spec fn entries(self) -> Seq<VisualPageCacheEntry<P>> {
        self.entries@
    }

    /// The page budget.
    pub closed spec fn page_budget(self) -> usize {
        self.max_pages
    }

    /// The element budget.
    pub closed spec fn element_budget(self) -> usize {
        self.max_elements
    }

    /// An empty cache with the given budgets (each at least 1).
    pub fn new(max_pages: usize, max_elements: usize) -> (c: VisualPageCache<P>)
        ensures
            c.entries() == Seq::<VisualPageCacheEntry<P>>::empty(),
            c.page_budget() == (if max_pages >= 1 {
                max_pages
            } else {
                1
            }),
            c.element_budget() == (if max_elements >= 1 {
                max_elements
            } else {
                1
            }),
    {
        VisualPageCache {
            entries: VecDeque::new(),
            max_pages: if max_pages >= 1 {
                max_pages
            } else {
                1
            },
            max_elements: if max_elements >= 1 {
                max_elements
            } else {
                1
            },
            current_elements: 0,
        }
    }

    /// How many pages are cached.
    pub fn len(&self) -> (n: usize)
        ensures
            n == self.entries().len(),
            n <= self.page_budget(),
    {
        proof {
            use_type_invariant(self);
        }
        self.entries.len()
    }

    /// How many elements the cached pages hold.
    pub fn element_count(&self) -> (n: usize)
        ensures
            n == total_elements(self.entries()),
            n <= self.element_budget(),
    {
        proof {
            use_type_invariant(self);
        }
        self.current_elements
    }

}

impl<P: Clone> VisualPageCache<P> {
    /// The cached data of page `page_index`, which becomes the most recently
    /// used.
    pub fn get(&mut self, page_index: usize) -> (page: Option<P>)
        ensures
            final(self).page_budget() == old(self).page_budget(),
            final(self).element_budget() == old(self).element_budget(),
            page_position(old(self).entries(), page_index) < 0 ==> page is None,
            page_position(old(self).entries(), page_index) < 0 ==> final(self).entries() == old(self).entries(),
            page_position(old(self).entries(), page_index) >= 0 ==> ({
                let i = page_position(old(self).entries(), page_index);
                &&& final(self).entries() == old(self).entries().remove(i).push(
                    old(self).entries()[i],
                )
                &&& page matches Some(p) && cloned(old(self).entries()[i].page, p)
            }),
    {
        proof {
            use_type_invariant(&*self);
            lemma_page_position(self.entries@, page_index);
        }
        let n = self.entries.len();
        let mut i: usize = 0;
        while i < n && self.entries[i].page_index != page_index
            invariant
                n == self.entries@.len(),
                0 <= i <= n,
                forall|k: int| 0 <= k < i ==> self.entries@[k].page_index != page_index,
                -1 <= page_position(self.entries@, page_index) < n,
                page_position(self.entries@, page_index) >= 0 ==> self.entries@[page_position(
                    self.entries@,
                    page_index,
                )].page_index == page_index,
                page_position(self.entries@, page_index) < 0 ==> forall|k: int|
                    0 <= k < n ==> self.entries@[k].page_index != page_index,
                forall|k: int|
                    0 <= k < page_position(self.entries@, page_index) ==> self.entries@[k].page_index
                        != page_index,
            decreases n - i,
        {
            i += 1;
        }
        if i == n {
            return None;
        }
        let ghost before = self.entries@;
        let mut tmp = VisualPageCache {
            entries: VecDeque::new(),
            max_pages: self.max_pages,
            max_elements: self.max_elements,
            current_elements: 0,
        };
        std::mem::swap(&mut tmp, self);
        proof {
            use_type_invariant(&tmp);
        }
        let VisualPageCache { mut entries, max_pages, max_elements, current_elements } = tmp;
        let entry = entries.remove(i).unwrap();
        let page = entry.page.clone();
        entries.push_back(entry);
        proof {
            lemma_total_elements_remove(before, i as int);
            lemma_total_elements_push(before.remove(i as int), before[i as int]);
        }
        *self = VisualPageCache { entries, max_pages, max_elements, current_elements };
        Some(page)
    }

}

impl<P> VisualPageCache<P> {
    /// Stores a page's data (`element_count` elements): it replaces any
    /// entry of the same page; a page over the element budget is not kept;
    /// otherwise it becomes the most recently used and the least recently
    /// used pages go while a budget is exceeded.
    pub fn insert(&mut self, page_index: usize, element_count: usize, page: P)
        requires
            element_count > old(self).element_budget() || total_elements(
                without_page(old(self).entries(), page_index),
            ) + element_count <= usize::MAX,
        ensures
            final(self).page_budget() == old(self).page_budget(),
            final(self).element_budget() == old(self).element_budget(),
            final(self).entries() == inserted(
                old(self).entries(),
                VisualPageCacheEntry { page_index, element_count, page },
                old(self).page_budget() as nat,
                old(self).element_budget() as nat,
            ),
    {
        proof {
            use_type_invariant(&*self);
            lemma_page_position(self.entries@, page_index);
        }
        let ghost start = self.entries@;
        let ghost e = VisualPageCacheEntry { page_index, element_count, page };
        let mut tmp = VisualPageCache {
            entries: VecDeque::new(),
            max_pages: self.max_pages,
            max_elements: self.max_elements,
            current_elements: 0,
        };
        std::mem::swap(&mut tmp, self);
        proof {
            use_type_invariant(&tmp);
        }
        let VisualPageCache { mut entries, max_pages, max_elements, current_elements } = tmp;
        let mut current = current_elements;
        let n = entries.len();
        let mut i: usize = 0;
        while i < n && entries[i].page_index != page_index
            invariant
                n == entries@.len(),
                entries@ == start,
                0 <= i <= n,
                forall|k: int| 0 <= k < i ==> entries@[k].page_index != page_index,
                -1 <= page_position(start, page_index) < n,
                page_position(start, page_index) >= 0 ==> start[page_position(start, page_index)].page_index
                    == page_index,
                page_position(start, page_index) < 0 ==> forall|k: int|
                    0 <= k < n ==> start[k].page_index != page_index,
                forall|k: int|
                    0 <= k < page_position(start, page_index) ==> start[k].page_index != page_index,
            decreases n - i,
        {
            i += 1;
        }
        if i < n {
            assert(page_position(start, page_index) == i);
            proof {
                lemma_total_elements_remove(start, i as int);
            }
            let old_entry = entries.remove(i).unwrap();
            current = current - old_entry.element_count;
        }
        let ghost rest = entries@;
        assert(current == total_elements(rest));
        assert(rest == without_page(start, page_index));
        if element_count > max_elements {
            assert(rest.len() <= start.len());
            *self = VisualPageCache { entries, max_pages, max_elements, current_elements: current };
            return;
        }
        current = current + element_count;
        entries.push_back(VisualPageCacheEntry { page_index, element_count, page });
        proof {
            lemma_total_elements_push(rest, e);
        }
        let ghost pushed = entries@;
        while entries.len() > 0 && (entries.len() > max_pages || current > max_elements)
            invariant
                current == total_elements(entries@),
                evict_pages(entries@, max_pages as nat, max_elements as nat) == evict_pages(
                    pushed,
                    max_pages as nat,
                    max_elements as nat,
                ),
            decreases entries@.len(),
        {
            let ghost before = entries@;
            proof {
                lemma_total_elements_drop_first(before);
            }
            let dropped = entries.pop_front().unwrap();
            assert(entries@ =~= before.drop_first());
            current = current - dropped.element_count;
        }
        proof {
            lemma_evict_within(pushed, max_pages as nat, max_elements as nat);
        }
        *self = VisualPageCache { entries, max_pages, max_elements, current_elements: current };
    }
}

/// After a page is stored, the cache is within both budgets, and the page
/// is kept, as the most recently used, whenever it fits in the element
/// budget alone and the page budget allows a page.
pub proof fn lemma_insert_within_budget<P>(
    entries: Seq<VisualPageCacheEntry<P>>,
    e: VisualPageCacheEntry<P>,
    max_pages: nat,
    max_elements: nat,
)
    requires
        entries.len() <= max_pages,
        total_elements(entries) <= max_elements,
        max_pages >= 1,
    ensures
        inserted(entries, e, max_pages, max_elements).len() <= max_pages,
        total_elements(inserted(entries, e, max_pages, max_elements)) <= max_elements,
        e.element_count <= max_elements ==> inserted(entries, e, max_pages, max_elements).len() > 0
            && inserted(entries, e, max_pages, max_elements).last() == e,
{
    lemma_page_position(entries, e.page_index);
    let p = page_position(entries, e.page_index);
    if p >= 0 {
        lemma_total_elements_remove(entries, p);
    }
    let rest = if p >= 0 {
        entries.remove(p)
    } else {
        entries
    };
    lemma_evict_within(rest.push(e), max_pages, max_elements);
    if e.element_count <= max_elements {
        lemma_evict_keeps_last(rest.push(e), max_pages, max_elements);
    }
}

/// Eviction keeps the most recently used entry when it fits both budgets on
/// its own.
proof fn lemma_evict_keeps_last<P>(
    entries: Seq<VisualPageCacheEntry<P>>,
    max_pages: nat,
    max_elements: nat,
)
    requires
        entries.len() > 0,
        max_pages >= 1,
        entries.last().element_count <= max_elements,
    ensures
        evict_pages(entries, max_pages, max_elements).len() > 0,
        evict_pages(entries, max_pages, max_elements).last() == entries.last(),
    decreases entries.len(),
{
    if entries.len() > max_pages || total_elements(entries) > max_elements {
        if entries.len() == 1 {
            assert(entries.drop_last() =~= Seq::<VisualPageCacheEntry<P>>::empty());
            assert(total_elements(entries) == total_elements(entries.drop_last())
                + entries.last().element_count);
            assert(total_elements(Seq::<VisualPageCacheEntry<P>>::empty()) == 0);
        }
        let r = entries.drop_first();
        assert(r.last() == entries.last());
        lemma_evict_keeps_last(r, max_pages, max_elements);
    }
}

} // verus!
