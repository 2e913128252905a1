//! Plain-value models of the memory collaborator's vocabulary: pages,
//! frames, page flags, and a reference memory manager used to exercise the
//! capability interface the kernel consumes.

use vstd::prelude::*;

use crate::arch::AbstractMemoryManager;

verus! {

/// Bytes in one 4 KiB page.
pub const PAGE_BYTES: usize = 4096;

/// A virtual page, by page number (virtual address divided by the page
/// size).
#[derive(Debug, Hash, Eq, PartialEq, Ord, PartialOrd, Clone, Copy, Structural)]
pub struct Page(pub usize);

/// A physical frame, by frame number.
#[derive(Debug, Hash, Eq, PartialEq, Ord, PartialOrd, Clone, Copy, Structural)]
pub struct Frame(pub usize);

/// Access permissions of a mapping.
#[derive(Debug, Eq, PartialEq, Clone, Copy, Structural)]
pub struct PageFlags {
    pub user: bool,
    pub writable: bool,
    pub executable: bool,
}

/// A contiguous, half-open range of pages.
#[derive(Debug, Eq, PartialEq, Clone, Copy, Structural)]
pub struct PageRange {
    pub start: Page,
    pub end: Page,
}

/// The flags user heap pages are mapped with: user-accessible and
/// writable, never executable.
pub fn user_data_flags_4k() -> (r: PageFlags)
    ensures
        r.user && r.writable && !r.executable,
{
    PageFlags { user: true, writable: true, executable: false }
}

/// `a` rounded up to the next multiple of `align`.
pub open spec fn spec_align_up(a: int, align: int) -> int
    recommends
        align > 0,
{
    ((a + align - 1) / align) * align
}

/// Round an address up to the page granularity in effect.
pub fn align_up_page(a: usize) -> (r: usize)
    requires
        a + PAGE_BYTES - 1 <= usize::MAX,
    ensures
        r == spec_align_up(a as int, PAGE_BYTES as int),
        a <= r < a + PAGE_BYTES,
        r % PAGE_BYTES == 0,
        r == (r / PAGE_BYTES) * PAGE_BYTES,
{
    let r = ((a + (PAGE_BYTES - 1)) / PAGE_BYTES) * PAGE_BYTES;
    proof {
        let p = PAGE_BYTES as int;
        let x = a as int;
        assert(p * ((x + p - 1) / p) == ((x + p - 1) / p) * p) by (nonlinear_arith);
        vstd::arithmetic::div_mod::lemma_div_pos_is_pos(x + p - 1, p);
        vstd::arithmetic::div_mod::lemma_fundamental_div_mod(x + p - 1, p);
        vstd::arithmetic::div_mod::lemma_mod_bound(x + p - 1, p);
        assert(r as int == ((x + p - 1) / p) * p);
        assert(x <= (r as int) && (r as int) < x + p);
        assert(r as int % p == 0) by {
            vstd::arithmetic::div_mod::lemma_mod_multiples_basic((x + p - 1) / p, p);
        }
        vstd::arithmetic::div_mod::lemma_fundamental_div_mod(r as int, p);
    }
    r
}

/// One entry of the reference manager's mapping journal: a page mapped to a
/// target, or unmapped (`None`). Later entries shadow earlier ones.
pub struct MapEntry {
    pub page: Page,
    pub target: Option<(Frame, PageFlags)>,
}

/// The mapping a journal describes: entries applied in order.
pub closed spec fn journal_mappings(s: Seq<MapEntry>) -> Map<Page, (Frame, PageFlags)>
    decreases s.len(),
{
    if s.len() == 0 {
        Map::empty()
    } else {
        let prev = journal_mappings(s.drop_last());
        match s.last().target {
            Some(v) => prev.insert(s.last().page, v),
            None => prev.remove(s.last().page),
        }
    }
}

/// A reference memory manager over plain values: a finite pool of frames
/// handed out by rising frame number — never re-issued — and a journal of
/// map/unmap operations. It implements the capability interface the kernel
/// consumes, so everything proved against that interface holds of at least
/// this implementation.
pub struct ModelMemoryManager {
    free: usize,
    next_frame: usize,
    journal: Vec<MapEntry>,
}

impl ModelMemoryManager {
    /// A manager with `frames` frames available and nothing mapped.
    pub fn new(frames: usize) -> (r: Self)
        requires
            frames < usize::MAX,
        ensures
            r.free_frames() == frames,
            r.issued() == Set::<Frame>::empty(),
            r.mappings() == Map::<Page, (Frame, PageFlags)>::empty(),
    {
        let r = ModelMemoryManager { free: frames, next_frame: 0, journal: Vec::new() };
        proof {
            assert(r.issued() =~= Set::<Frame>::empty());
        }
        r
    }
}

impl AbstractMemoryManager for ModelMemoryManager {
    closed spec fn free_frames(&self) -> nat {
        if self.free as int <= usize::MAX - self.next_frame {
            self.free as nat
        } else {
            (usize::MAX - self.next_frame) as nat
        }
    }

    closed spec fn issued(&self) -> Set<Frame> {
        Set::new(|f: Frame| (f.0 as int) < self.next_frame as int)
    }

    closed spec fn mappings(&self) -> Map<Page, (Frame, PageFlags)> {
        journal_mappings(self.journal@)
    }

    fn frames_available(&self) -> (n: usize) {
        let cap = usize::MAX - self.next_frame;
        if self.free < cap {
            self.free
        } else {
            cap
        }
    }

    fn alloc_frame(&mut self) -> (r: Option<Frame>) {
        if self.free == 0 || self.next_frame == usize::MAX {
            return None;
        }
        self.free = self.free - 1;
        let f = Frame(self.next_frame);
        self.next_frame = self.next_frame + 1;
        proof {
            assert(self.journal@ == old(self).journal@);
            assert(self.issued() =~= old(self).issued().insert(f));
        }
        Some(f)
    }

    fn dealloc_frame(&mut self, frame: Frame) {
        if self.free < usize::MAX {
            self.free = self.free + 1;
        }
    }

    fn map(&mut self, page: Page, frame: Frame, flags: PageFlags) {
        self.journal.push(MapEntry { page, target: Some((frame, flags)) });
        proof {
            assert(self.journal@.drop_last() =~= old(self).journal@);
        }
    }

    fn unmap(&mut self, page: Page) {
        self.journal.push(MapEntry { page, target: None });
        proof {
            assert(self.journal@.drop_last() =~= old(self).journal@);
        }
    }

    fn translate(&self, page: Page) -> (r: Option<(Frame, PageFlags)>) {
        let n = self.journal.len();
        let mut i = n;
        proof {
            assert(self.journal@.take(n as int) =~= self.journal@);
        }
        while i > 0
            invariant
                i <= n,
                n == self.journal@.len(),
                journal_mappings(self.journal@).contains_key(page) == journal_mappings(
                    self.journal@.take(i as int)).contains_key(page),
                journal_mappings(self.journal@).contains_key(page) ==> journal_mappings(
                    self.journal@)[page] == journal_mappings(self.journal@.take(i as int))[page],
            decreases i,
        {
            let e = &self.journal[i - 1];
            proof {
                assert(self.journal@.take(i as int).drop_last() =~= self.journal@.take(
                    i as int - 1));
                assert(self.journal@.take(i as int).last() == self.journal@[i as int - 1]);
            }
            if e.page.0 == page.0 {
                proof {
                    assert(e.page == page);
                }
                match e.target {
                    Some(v) => {
                        return Some(v);
                    },
                    None => {
                        return None;
                    },
                }
            }
            i = i - 1;
        }
        proof {
            assert(self.journal@.take(0) =~= Seq::<MapEntry>::empty());
        }
        None
    }

    fn update_flags(&mut self, page: Page, flags: PageFlags) {
        let cur = self.translate(page);
        let frame = cur.unwrap().0;
        self.journal.push(MapEntry { page, target: Some((frame, flags)) });
        proof {
            assert(self.journal@.drop_last() =~= old(self).journal@);
        }
    }

    fn fork_address_space(&mut self, root: Frame) -> (r: Option<Frame>) {
        if self.free == 0 || self.next_frame == usize::MAX {
            return None;
        }
        self.free = self.free - 1;
        let f = Frame(self.next_frame);
        self.next_frame = self.next_frame + 1;
        proof {
            assert(self.journal@ == old(self).journal@);
            assert(self.issued() =~= old(self).issued().insert(f));
        }
        Some(f)
    }
}

} // verus!

