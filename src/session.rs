//! The navigation engine: a stack of views over fetched resources, with
//! going back, scrolling and entering items of a listing.
//!
//! Fetching is done by the caller: `Gopher::new` and `Gopher::push_response`
//! take what a fetch returned, and `Gopher::activate_item` says what to fetch.

use vstd::prelude::*;

use crate::directory::{
    spec_is_info, spec_parse_directory, views_of, Directory, DirectoryItem,
    GopherError, ItemView,
};
use crate::text::{decimal, push_decimal};

verus! {

/// One view of the session.
#[derive(Debug)]
pub enum State {
    /// A listing: its location, the directory, and the scroll offset.
    DisplayDirectory(String, Directory, usize),
    /// A text resource: its location, the text, and the scroll offset.
    DisplayResource(String, String, usize),
    /// A notice, such as a request for an item that does not exist.
    ShowMessage(String),
    /// A fetch that failed.
    Error(GopherError),
}

/// What to fetch to enter an item.
#[derive(Debug)]
pub struct Request {
    pub host: String,
    pub port: usize,
    pub selector: String,
}

/// The location text of a resource: `host:port/selector`.
pub open spec fn location(host: Seq<char>, port: nat, selector: Seq<char>) -> Seq<char> {
    host + seq![':'] + decimal(port) + seq!['/'] + selector
}

/// The view that a fetch gives: a listing where the response parses as one,
/// else its text; a failure where the fetch failed.
pub open spec fn is_fetched_state(
    st: State,
    loc: Seq<char>,
    fetched: Result<String, std::io::Error>,
) -> bool {
    match fetched {
        Ok(body) => match spec_parse_directory(body@) {
            Ok(ms) => st matches State::DisplayDirectory(l, d, 0) && l@ == loc && d@ == ms,
            Err(_) => st matches State::DisplayResource(l, t, 0) && l@ == loc && t@ == body@,
        },
        Err(e) => st == State::Error(GopherError::Io(e)),
    }
}

/// A scroll offset moved by `amount`: never below zero, and held at the
/// largest offset that fits.
pub open spec fn moved(offset: usize, amount: int) -> usize {
    let n = offset + amount;
    if n < 0 {
        0
    } else if n > usize::MAX {
        usize::MAX
    } else {
        n as usize
    }
}

/// Scrolling back by at least the current offset lands on offset zero, and
/// no scroll leaves a negative offset.
pub proof fn lemma_scroll_back_to_top(offset: usize, amount: int)
    requires
        amount <= -(offset as int),
    ensures
        moved(offset, amount) == 0,
{
}

/// A view scrolled by `amount`; views without an offset stay as they are.
pub open spec fn scrolled(st: State, amount: int) -> State {
    match st {
        State::DisplayDirectory(l, d, s) => State::DisplayDirectory(l, d, moved(s, amount)),
        State::DisplayResource(l, t, s) => State::DisplayResource(l, t, moved(s, amount)),
        _ => st,
    }
}

/// The index of the `n`-th navigable item at or after `start`, counting
/// from zero and passing over informational items.
pub open spec fn selected(ms: Seq<ItemView>, start: int, n: nat) -> Option<int>
    decreases ms.len() - start,
{
    if start < 0 || start >= ms.len() {
        None
    } else if spec_is_info(ms[start]) {
        selected(ms, start + 1, n)
    } else if n == 0 {
        Some(start)
    } else {
        selected(ms, start + 1, (n - 1) as nat)
    }
}

pub open spec fn is_message(st: State, text: Seq<char>) -> bool {
    st matches State::ShowMessage(m) && m@ == text
}

pub open spec fn not_in_directory() -> Seq<char> {
    seq!['N', 'o', 't', ' ', 'i', 'n', ' ', 'a', ' ', 'd', 'i', 'r', 'e', 'c', 't', 'o', 'r', 'y']
}

pub open spec fn no_such_item() -> Seq<char> {
    seq!['N', 'o', ' ', 's', 'u', 'c', 'h', ' ', 'i', 't', 'e', 'm']
}

/// A navigation session: a stack of views whose bottom, the first fetch,
/// is never removed.
pub struct Gopher {
    states: Vec<State>,
}

impl View for Gopher {
    type V = Seq<State>;

    closed spec fn view(&self) -> Seq<State> {
        self.states@
    }
}

/// The location text of a resource.
fn make_location(host: &str, port: usize, selector: &str) -> (r: String)
    ensures
        r@ == location(host@, port as nat, selector@),
{
    proof {
        reveal_strlit(":");
        reveal_strlit("/");
    }
    let mut out = String::from_str(host);
    out.append(":");
    push_decimal(&mut out, port);
    out.append("/");
    out.append(selector);
    assert(out@ =~= location(host@, port as nat, selector@));
    out
}

/// A response read as a listing where it parses as one, else kept as text.
pub fn parse_directory_or_text(body: String) -> (r: Result<Directory, String>)
    ensures
        match spec_parse_directory(body@) {
            Ok(ms) => r matches Ok(d) && d@ == ms,
            Err(_) => r matches Err(t) && t@ == body@,
        },
{
    match Directory::from_str(body.as_str()) {
        Ok(d) => Ok(d),
        Err(_) => Err(body),
    }
}

/// The view for what a fetch of `loc` returned.
fn fetched_state(loc: String, fetched: Result<String, std::io::Error>) -> (r: State)
    ensures
        is_fetched_state(r, loc@, fetched),
{
    match fetched {
        Ok(body) => match parse_directory_or_text(body) {
            Ok(d) => State::DisplayDirectory(loc, d, 0),
            Err(text) => State::DisplayResource(loc, text, 0),
        },
        Err(e) => State::Error(GopherError::from(e)),
    }
}

fn message(text: &str) -> (r: State)
    ensures
        is_message(r, text@),
{
    State::ShowMessage(String::from_str(text))
}

impl Gopher {
    /// The session is never empty.
    pub open spec fn wf(&self) -> bool {
        self@.len() >= 1
    }

    /// Starts a session on what the fetch of `selector` from `host:port`
    /// returned.
    pub fn new(host: &str, port: u16, selector: &str, fetched: Result<String, std::io::Error>) -> (r:
        Gopher)
        ensures
            r.wf(),
            r@.len() == 1,
            is_fetched_state(r@[0], location(host@, port as nat, selector@), fetched),
    {
        let loc = make_location(host, port as usize, selector);
        let mut states: Vec<State> = Vec::new();
        states.push(fetched_state(loc, fetched));
        Gopher { states }
    }

    /// The view on top of the stack.
    pub fn current_state(&self) -> (r: &State)
        requires
            self.wf(),
        ensures
            *r == self@.last(),
    {
        &self.states[self.states.len() - 1]
    }

    /// The view on top of the stack, to be changed in place.
    pub fn current_state_mut(&mut self) -> (r: &mut State)
        requires
            old(self).wf(),
        ensures
            *r == old(self)@.last(),
            final(self).wf(),
            final(self)@ == old(self)@.update(old(self)@.len() - 1, *final(r)),
    {
        let len = self.states.len();
        &mut self.states[len - 1]
    }

    /// Scrolls the current view by `amount` lines; the offset stays at zero
    /// or above. Messages and failures do not scroll.
    pub fn scroll(&mut self, amount: isize)
        requires
            old(self).wf(),
        ensures
            final(self).wf(),
            final(self)@ == old(self)@.update(
                old(self)@.len() - 1,
                scrolled(old(self)@.last(), amount as int),
            ),
    {
        let top = self.states.pop().unwrap();
        let next = match top {
            State::DisplayDirectory(l, d, s) => State::DisplayDirectory(l, d, move_offset(s, amount)),
            State::DisplayResource(l, t, s) => State::DisplayResource(l, t, move_offset(s, amount)),
            other => other,
        };
        self.states.push(next);
        assert(self@ =~= old(self)@.update(
            old(self)@.len() - 1,
            scrolled(old(self)@.last(), amount as int),
        ));
    }

    /// Returns to the previous view; the first view is kept.
    pub fn pop_state(&mut self)
        requires
            old(self).wf(),
        ensures
            final(self).wf(),
            old(self)@.len() > 1 ==> final(self)@ == old(self)@.drop_last(),
            old(self)@.len() == 1 ==> final(self)@ == old(self)@,
    {
        if self.states.len() > 1 {
            self.states.pop();
        }
    }

    /// Chooses the `n`-th navigable item (counting from zero) shown after the
    /// current listing's scroll offset. Where it exists, the stack is kept
    /// and the request for it is returned: hand what its fetch returns to
    /// `push_response`. Else a message is pushed: "Not in a directory" where
    /// the current view is no listing, "No such item" where the listing has
    /// no such item.
    pub fn activate_item(&mut self, n: usize) -> (r: Option<Request>)
        requires
            old(self).wf(),
        ensures
            final(self).wf(),
            match old(self)@.last() {
                State::DisplayDirectory(_, d, s) => match selected(d@, s as int, n as nat) {
                    Some(i) => final(self)@ == old(self)@ && (r matches Some(q) && q.host@
                        == d@[i].host && q.port == d@[i].port && q.selector@ == d@[i].selector),
                    None => r is None && final(self)@.len() == old(self)@.len() + 1
                        && final(self)@.drop_last() == old(self)@ && is_message(
                        final(self)@.last(),
                        no_such_item(),
                    ),
                },
                _ => r is None && final(self)@.len() == old(self)@.len() + 1
                    && final(self)@.drop_last() == old(self)@ && is_message(
                    final(self)@.last(),
                    not_in_directory(),
                ),
            },
    {
        let in_listing: bool;
        match &self.states[self.states.len() - 1] {
            State::DisplayDirectory(_, d, s) => {
                let r = select_item(d, *s, n);
                if r.is_some() {
                    return r;
                }
                in_listing = true;
            },
            _ => {
                in_listing = false;
            },
        }
        proof {
            reveal_strlit("No such item");
            reveal_strlit("Not in a directory");
            assert("No such item"@ =~= no_such_item());
            assert("Not in a directory"@ =~= not_in_directory());
        }
        if in_listing {
            self.states.push(message("No such item"));
        } else {
            self.states.push(message("Not in a directory"));
        }
        assert(self@.drop_last() =~= old(self)@);
        None
    }

    /// Pushes the view for what the fetch of `req` returned.
    pub fn push_response(&mut self, req: &Request, fetched: Result<String, std::io::Error>)
        requires
            old(self).wf(),
        ensures
            final(self).wf(),
            final(self)@.len() == old(self)@.len() + 1,
            final(self)@.drop_last() == old(self)@,
            is_fetched_state(
                final(self)@.last(),
                location(req.host@, req.port as nat, req.selector@),
                fetched,
            ),
    {
        let loc = make_location(req.host.as_str(), req.port, req.selector.as_str());
        self.states.push(fetched_state(loc, fetched));
        assert(self@.drop_last() =~= old(self)@);
    }
}

/// Moves a scroll offset.
fn move_offset(offset: usize, amount: isize) -> (r: usize)
    ensures
        r == moved(offset, amount as int),
{
    if amount < 0 {
        let back = (0 - (amount as i128)) as usize;
        if back > offset {
            0
        } else {
            offset - back
        }
    } else {
        let ahead = amount as usize;
        if ahead > usize::MAX - offset {
            usize::MAX
        } else {
            offset + ahead
        }
    }
}

/// The request for the `n`-th navigable item at or after `scroll`.
fn select_item(d: &Directory, scroll: usize, n: usize) -> (r: Option<Request>)
    ensures
        match selected(d@, scroll as int, n as nat) {
            Some(i) => r matches Some(q) && q.host@ == d@[i].host && q.port == d@[i].port
                && q.selector@ == d@[i].selector,
            None => r is None,
        },
{
    let items = d.items();
    let ghost ms = d@;
    let mut i: usize = scroll;
    let mut k: usize = n;
    if i >= items.len() {
        return None;
    }
    while i < items.len()
        invariant
            views_of(items@) == ms,
            ms == d@,
            ms.len() == items@.len(),
            scroll <= i,
            selected(ms, scroll as int, n as nat) == selected(ms, i as int, k as nat),
        decreases items@.len() - i,
    {
        let item: &DirectoryItem = &items[i];
        assert(ms[i as int] == item@);
        if !item.is_info() {
            if k == 0 {
                assert(selected(ms, i as int, k as nat) == Some(i as int));
                let host = item.host.clone();
                let selector = item.selector.clone();
                assert(host@ == ms[i as int].host);
                assert(selector@ == ms[i as int].selector);
                return Some(Request { host, port: item.port, selector });
            }
            k = k - 1;
        }
        i = i + 1;
    }
    None
}

} // verus!
