//! The owners of a page: the embedding context, and a context entered from foreign code.
use vstd::prelude::*;

use crate::error::JlrsError;
use crate::stack::StackPage;
use crate::task::{grown_len, open_task_frame, page_len_for, BlockingFn};
use crate::stack::{DEFAULT_PAGE_SLOTS, MAX_PAGE_SLOTS};
use crate::stack::AllocError;

verus! {

/// Runs `func` in a fresh frame of `slots` roots on a page with no open frame, then closes
/// the frame. The page grows first if it is too small.
fn run_scope<T, F: BlockingFn<T>>(page: &mut StackPage, slots: usize, func: F) -> (r: Result<T, JlrsError>)
    requires
        old(page).inv(),
        old(page).frames().len() == 0,
    ensures
        final(page).inv(),
        final(page).frames().len() == 0,
        final(page).buffer_len() == page_len_for(*old(page), slots),
        slots + 3 > MAX_PAGE_SLOTS ==> r == Err::<T, JlrsError>(
            JlrsError::Alloc(AllocError::StackOverflow(slots, MAX_PAGE_SLOTS)),
        ),
{
    match open_task_frame(page, slots) {
        Err(e) => Err(e),
        Ok(frame) => {
            let res = func.call(page, frame);
            page.pop_frame(frame);
            res
        },
    }
}

/// The embedding context: the page of the thread that drives the runtime.
pub struct Julia {
    page: StackPage,
}

impl Julia {
    /// No frame is open on the page.
    pub closed spec fn idle(&self) -> bool {
        self.page.inv() && self.page.frames().len() == 0
    }

    pub closed spec fn page_spec(&self) -> StackPage {
        self.page
    }

    /// A context with a page of the default size.
    pub fn new() -> (r: Self)
        ensures
            r.idle(),
    {
        Julia { page: StackPage::default_page() }
    }

    /// The context's page.
    pub fn page(&self) -> (r: &StackPage)
        ensures
            *r == self.page_spec(),
    {
        &self.page
    }

    /// Runs `func` in a frame without preallocated roots.
    pub fn scope<T, F: BlockingFn<T>>(&mut self, func: F) -> (r: Result<T, JlrsError>)
        requires
            old(self).idle(),
        ensures
            final(self).idle(),
            final(self).page_spec().buffer_len() == page_len_for(old(self).page_spec(), 0),
    {
        run_scope(&mut self.page, 0, func)
    }

    /// Runs `func` in a frame of `slots` preallocated roots, growing the page first if it
    /// cannot hold them.
    pub fn scope_with_slots<T, F: BlockingFn<T>>(&mut self, slots: usize, func: F) -> (r: Result<T, JlrsError>)
        requires
            old(self).idle(),
        ensures
            final(self).idle(),
            final(self).page_spec().buffer_len() == page_len_for(old(self).page_spec(), slots),
            slots + 3 > MAX_PAGE_SLOTS ==> r == Err::<T, JlrsError>(
                JlrsError::Alloc(AllocError::StackOverflow(slots, MAX_PAGE_SLOTS)),
            ),
    {
        run_scope(&mut self.page, slots, func)
    }
}

impl Julia {
    /// What including the file at `path` comes to: `IncludeNotFound` when no file is there,
    /// `IncludeError` with the exception's type when running it raised one, and success
    /// otherwise.
    pub fn include_outcome(path: String, exists: bool, raised: Option<String>) -> (r: Result<(), JlrsError>)
        ensures
            !exists ==> r == Err::<(), JlrsError>(JlrsError::IncludeNotFound(path)),
            exists && raised is None ==> r is Ok,
            exists ==> (raised matches Some(t) ==> r == Err::<(), JlrsError>(JlrsError::IncludeError(path, t))),
    {
        if !exists {
            return Err(JlrsError::IncludeNotFound(path));
        }
        match raised {
            Some(t) => Err(JlrsError::IncludeError(path, t)),
            None => Ok(()),
        }
    }
}

/// A context entered from foreign code; its page is allocated when first needed.
pub struct CCall {
    page: Option<StackPage>,
}

impl CCall {
    /// No frame is open on the page, if there is one.
    pub closed spec fn idle(&self) -> bool {
        self.page matches Some(p) ==> p.inv() && p.frames().len() == 0
    }

    pub closed spec fn has_page(&self) -> bool {
        self.page is Some
    }

    pub closed spec fn page_spec(&self) -> Option<StackPage> {
        self.page
    }

    /// The size of the page; a page not yet allocated counts as one of the default size.
    pub open spec fn page_len(&self) -> int {
        match self.page_spec() {
            Some(p) => p.buffer_len(),
            None => DEFAULT_PAGE_SLOTS as int,
        }
    }

    /// The free slots of the page; a page not yet allocated counts as an empty one of the
    /// default size.
    pub open spec fn page_free(&self) -> int {
        match self.page_spec() {
            Some(p) => p.free_spec(),
            None => DEFAULT_PAGE_SLOTS - 1,
        }
    }

    /// The size of the page, if it has been allocated.
    pub fn page_size(&self) -> (r: Option<usize>)
        ensures
            r is Some <==> self.has_page(),
            r matches Some(n) ==> n == self.page_len(),
    {
        match &self.page {
            Some(p) => Some(p.size()),
            None => None,
        }
    }

    /// A context without a page.
    pub fn new() -> (r: Self)
        ensures
            r.idle(),
            !r.has_page(),
    {
        CCall { page: None }
    }

    /// Allocates the page of the default size if there is none yet.
    fn get_init_page(&mut self)
        requires
            old(self).idle(),
        ensures
            final(self).idle(),
            final(self).has_page(),
            old(self).has_page() ==> *final(self) == *old(self),
            !old(self).has_page() ==> final(self).page_spec()->Some_0.buffer_len() == DEFAULT_PAGE_SLOTS
                && final(self).page_spec()->Some_0.frames().len() == 0,
            final(self).page_len() == old(self).page_len(),
            final(self).page_free() == old(self).page_free(),
    {
        if self.page.is_none() {
            self.page = Some(StackPage::default_page());
        }
    }

    /// Runs `func` in a frame without preallocated roots.
    pub fn scope<T, F: BlockingFn<T>>(&mut self, func: F) -> (r: Result<T, JlrsError>)
        requires
            old(self).idle(),
        ensures
            final(self).idle(),
            final(self).has_page(),
            final(self).page_len() == grown_len(old(self).page_len(), old(self).page_free(), 0),
    {
        self.scope_with_slots(0, func)
    }

    /// Runs `func` in a frame of `slots` preallocated roots, allocating or growing the page
    /// first as needed.
    pub fn scope_with_slots<T, F: BlockingFn<T>>(&mut self, slots: usize, func: F) -> (r: Result<T, JlrsError>)
        requires
            old(self).idle(),
        ensures
            final(self).idle(),
            final(self).has_page(),
            final(self).page_len() == grown_len(old(self).page_len(), old(self).page_free(), slots),
            slots + 3 > MAX_PAGE_SLOTS ==> r == Err::<T, JlrsError>(
                JlrsError::Alloc(AllocError::StackOverflow(slots, MAX_PAGE_SLOTS)),
            ),
    {
        self.get_init_page();
        match self.page {
            Some(ref mut page) => run_scope(page, slots, func),
            None => vstd::pervasive::unreached(),
        }
    }
}

} // verus!
