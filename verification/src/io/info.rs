//! Backing metadata ([`Info`]) and [`HasInfo`] for recipes and opened resources.

use super::access::OpenMode;
use super::state::{HasState, State};
use crate::url::Url;
use vstd::prelude::*;

verus! {

/// Backing [`Url`] + capacity + open mode + runtime state.
#[derive(Debug)]
pub struct Info {
    pub url: Url,
    pub capacity: usize,
    /// How the backing should be / was opened (`create` vs `attach`).
    pub open_mode: OpenMode,
    /// Runtime state in this process (`open` vs `closed`).
    pub state: State,
}

impl Clone for Info {
    fn clone(&self) -> (r: Self)
        ensures
            r@ == self@,
    {
        Info {
            url: self.url.clone(),
            capacity: self.capacity,
            open_mode: self.open_mode,
            state: self.state,
        }
    }
}

/// What an [`Info`] records: url text, capacity, mode and state.
pub struct InfoView {
    pub url: Seq<char>,
    pub capacity: usize,
    pub open_mode: OpenMode,
    pub state: State,
}

impl View for Info {
    type V = InfoView;

    open spec fn view(&self) -> InfoView {
        InfoView {
            url: self.url@,
            capacity: self.capacity,
            open_mode: self.open_mode,
            state: self.state,
        }
    }
}

impl Info {
    /// Metadata of a backing at `url` that is not opened yet.
    pub fn empty(url: Url) -> (r: Self)
        ensures
            r.url@ == url@,
            r.capacity == 0,
            r.open_mode == OpenMode::Unset,
            r.state == State::Unopened,
    {
        Info { url, capacity: 0, open_mode: OpenMode::Unset, state: State::Unopened }
    }

    pub fn url(self, url: Url) -> (r: Self)
        ensures
            r.url@ == url@,
            r.capacity == self.capacity,
            r.open_mode == self.open_mode,
            r.state == self.state,
    {
        Info { url, ..self }
    }

    pub fn capacity(self, bytes: usize) -> (r: Self)
        ensures
            r.url@ == self.url@,
            r.capacity == bytes,
            r.open_mode == self.open_mode,
            r.state == self.state,
    {
        Info { capacity: bytes, ..self }
    }

    pub fn open_mode(self, mode: OpenMode) -> (r: Self)
        ensures
            r.url@ == self.url@,
            r.capacity == self.capacity,
            r.open_mode == mode,
            r.state == self.state,
    {
        Info { open_mode: mode, ..self }
    }
}

impl Info {
    fn state_field(&mut self) -> (r: &mut State)
        ensures
            *r == old(self).state,
            final(self).state == *final(r),
            final(self).url == old(self).url,
            final(self).capacity == old(self).capacity,
            final(self).open_mode == old(self).open_mode,
    {
        &mut self.state
    }
}

impl HasState for Info {
    open spec fn spec_state(&self) -> State {
        self.state
    }

    fn state(&self) -> (r: State) {
        self.state
    }

    fn state_mut(&mut self) -> (r: &mut State)
        ensures
            final(self).url == old(self).url,
            final(self).capacity == old(self).capacity,
            final(self).open_mode == old(self).open_mode,
    {
        assert(old(self).spec_state() == old(self).state);
        let r = self.state_field();
        assert(*r == old(self).spec_state());
        r
    }
}

/// Types that carry [`Info`] (recipes and opened backends).
pub trait HasInfo: Sized {
    /// The metadata the value carries.
    spec fn spec_info(&self) -> InfoView;

    fn info(&self) -> (r: &Info)
        ensures
            r@ == self.spec_info(),
    ;

    fn info_mut(&mut self) -> (r: &mut Info)
        ensures
            r@ == old(self).spec_info(),
            final(self).spec_info() == final(r)@,
    ;

    fn url(self, url: Url) -> (r: Self)
        ensures
            r.spec_info() == (InfoView { url: url@, ..self.spec_info() }),
    {
        let mut s = self;
        s.info_mut().url = url;
        s
    }

    fn capacity(self, bytes: usize) -> (r: Self)
        ensures
            r.spec_info() == (InfoView { capacity: bytes, ..self.spec_info() }),
    {
        let mut s = self;
        s.info_mut().capacity = bytes;
        s
    }

    fn open_mode(self, mode: OpenMode) -> (r: Self)
        ensures
            r.spec_info() == (InfoView { open_mode: mode, ..self.spec_info() }),
    {
        let mut s = self;
        s.info_mut().open_mode = mode;
        s
    }

    fn state(self, state: State) -> (r: Self)
        ensures
            r.spec_info() == (InfoView { state: state, ..self.spec_info() }),
    {
        let mut s = self;
        *s.info_mut().state_mut() = state;
        s
    }
}

} // verus!
