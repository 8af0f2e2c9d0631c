//! State of the interface components: the list of errors shown in a
//! snackbar, and a block of raw HTML.

use std::marker::PhantomData;

use vstd::prelude::*;
use vstd::string::*;

use crate::text::{decimal, push_char, push_decimal};

verus! {

broadcast use vstd::seq::group_seq_axioms;

/// Id of the errors snackbar where none is given.
pub fn default_errors_id() -> (r: &'static str)
    ensures
        r@ == "errors-snackbar"@,
{
    "errors-snackbar"
}

/// Errors shown to the user, each with how often it happened.
pub struct Errors<ParentT> {
    id: String,
    errors: Vec<(String, usize)>,
    timeout_ms: i32,
    _phantom: PhantomData<ParentT>,
}

/// What the errors component is asked to do.
pub enum ErrorsMsg {
    Open,
    Close,
    Add(String),
    Spawn(String),
}

/// Properties of the errors component; the errors name each text once.
pub struct ErrorsProps {
    pub id: String,
    pub timeout_ms: i32,
    pub errors: Vec<(String, usize)>,
}

impl Default for ErrorsProps {
    fn default() -> (r: Self)
        ensures
            r.id@ == "errors-snackbar"@,
            r.timeout_ms == -1,
            r.errors@.len() == 0,
    {
        ErrorsProps { id: default_errors_id().to_owned(), timeout_ms: -1, errors: Vec::new() }
    }
}

/// What the snackbar has to do after an update.
#[derive(Debug, Clone, Copy, PartialEq, Eq, Structural)]
pub enum SnackbarAction {
    Keep,
    Open,
    Close,
}

/// No text is named twice.
pub open spec fn texts_unique(errors: Seq<(String, usize)>) -> bool {
    forall|i: int, j: int| 0 <= i < errors.len() && 0 <= j < errors.len() && i != j
        ==> (#[trigger] errors[i]).0@ != (#[trigger] errors[j]).0@
}

/// How often `text` is listed.
pub open spec fn count_in(errors: Seq<(String, usize)>, text: Seq<char>) -> nat {
    if exists|i: int| 0 <= i < errors.len() && (#[trigger] errors[i]).0@ == text {
        errors[choose|i: int| 0 <= i < errors.len() && (#[trigger] errors[i]).0@ == text].1 as nat
    } else {
        0
    }
}

impl<ParentT> Errors<ParentT> {
    pub closed spec fn entries(&self) -> Seq<(String, usize)> {
        self.errors@
    }

    pub closed spec fn id_spec(&self) -> Seq<char> {
        self.id@
    }

    pub closed spec fn timeout_spec(&self) -> i32 {
        self.timeout_ms
    }

    pub open spec fn wf(&self) -> bool {
        texts_unique(self.entries())
    }

    /// How often `text` happened.
    pub open spec fn count(&self, text: Seq<char>) -> nat {
        count_in(self.entries(), text)
    }

    /// The component as its properties describe it.
    pub fn create(props: ErrorsProps) -> (r: Self)
        requires
            texts_unique(props.errors@),
        ensures
            r.wf(),
            r.id_spec() == props.id@,
            r.timeout_spec() == props.timeout_ms,
            r.entries() == props.errors@,
    {
        Errors { id: props.id, errors: props.errors, timeout_ms: props.timeout_ms, _phantom: PhantomData }
    }

    pub fn id(&self) -> (r: &str)
        ensures
            r@ == self.id_spec(),
    {
        self.id.as_str()
    }

    pub fn timeout_ms(&self) -> (r: i32)
        ensures
            r == self.timeout_spec(),
    {
        self.timeout_ms
    }

    /// Counts one more occurrence of `error`.
    pub fn add(&mut self, error: String)
        requires
            old(self).wf(),
            old(self).count(error@) < usize::MAX,
        ensures
            final(self).wf(),
            final(self).count(error@) == old(self).count(error@) + 1,
            forall|t: Seq<char>| t != error@ ==> final(self).count(t) == old(self).count(t),
            final(self).id_spec() == old(self).id_spec(),
            final(self).timeout_spec() == old(self).timeout_spec(),
    {
        let ghost key = error@;
        let n = self.errors.len();
        let mut i: usize = 0;
        while i < n && self.errors[i].0 != error
            invariant
                n == self.entries().len(),
                i <= n,
                forall|j: int| 0 <= j < i ==> (#[trigger] self.entries()[j]).0@ != key,
                error@ == key,
            decreases n - i,
        {
            i = i + 1;
        }
        if i < n {
            assert(self.entries()[i as int].0@ == key);
            let c = self.errors[i].1;
            proof {
                let k = choose|k: int| 0 <= k < self.entries().len() && (#[trigger] self.entries()[k]).0@ == key;
                assert(k == i);
            }
            self.errors.set(i, (error, c + 1));
            proof {
                assert(self.entries() == old(self).entries().update(i as int, self.entries()[i as int]));
                assert forall|a: int, b: int| 0 <= a < self.entries().len() && 0 <= b < self.entries().len() && a != b
                    implies (#[trigger] self.entries()[a]).0@ != (#[trigger] self.entries()[b]).0@ by {
                    assert(old(self).entries()[a].0@ == self.entries()[a].0@);
                    assert(old(self).entries()[b].0@ == self.entries()[b].0@);
                }
                let k = choose|k: int| 0 <= k < self.entries().len() && (#[trigger] self.entries()[k]).0@ == key;
                assert(self.entries()[i as int].0@ == key);
                assert(k == i);
                assert forall|t: Seq<char>| t != key implies self.count(t) == old(self).count(t) by {
                    if exists|j: int| 0 <= j < old(self).entries().len() && (#[trigger] old(self).entries()[j]).0@ == t {
                        let j = choose|j: int| 0 <= j < old(self).entries().len() && (#[trigger] old(self).entries()[j]).0@ == t;
                        assert(self.entries()[j].0@ == t);
                        let j2 = choose|j2: int| 0 <= j2 < self.entries().len() && (#[trigger] self.entries()[j2]).0@ == t;
                        assert(j2 == j);
                    }
                    if exists|j: int| 0 <= j < self.entries().len() && (#[trigger] self.entries()[j]).0@ == t {
                        let j = choose|j: int| 0 <= j < self.entries().len() && (#[trigger] self.entries()[j]).0@ == t;
                        assert(old(self).entries()[j].0@ == t);
                    }
                }
            }
        } else {
            self.errors.push((error, 1));
            proof {
                let last: int = self.entries().len() - 1;
                assert(self.entries()[last].0@ == key);
                let k = choose|k: int| 0 <= k < self.entries().len() && (#[trigger] self.entries()[k]).0@ == key;
                assert(k == last);
                assert forall|t: Seq<char>| t != key implies self.count(t) == old(self).count(t) by {
                    if exists|j: int| 0 <= j < old(self).entries().len() && (#[trigger] old(self).entries()[j]).0@ == t {
                        let j = choose|j: int| 0 <= j < old(self).entries().len() && (#[trigger] old(self).entries()[j]).0@ == t;
                        assert(self.entries()[j].0@ == t);
                        let j2 = choose|j2: int| 0 <= j2 < self.entries().len() && (#[trigger] self.entries()[j2]).0@ == t;
                        assert(j2 == j);
                    }
                    if exists|j: int| 0 <= j < self.entries().len() && (#[trigger] self.entries()[j]).0@ == t {
                        let j = choose|j: int| 0 <= j < self.entries().len() && (#[trigger] self.entries()[j]).0@ == t;
                        assert(j != last);
                        assert(old(self).entries()[j].0@ == t);
                    }
                }
            }
        }
    }

    /// Forgets all errors.
    pub fn close(&mut self)
        ensures
            final(self).wf(),
            forall|t: Seq<char>| final(self).count(t) == 0,
            final(self).id_spec() == old(self).id_spec(),
            final(self).timeout_spec() == old(self).timeout_spec(),
    {
        self.errors = Vec::new();
    }

    /// Handles a message: `Add` counts an error, `Spawn` counts it and opens
    /// the snackbar, `Open` opens it, `Close` forgets the errors and closes it.
    pub fn update(&mut self, msg: ErrorsMsg) -> (r: SnackbarAction)
        requires
            old(self).wf(),
            msg matches ErrorsMsg::Add(e) ==> old(self).count(e@) < usize::MAX,
            msg matches ErrorsMsg::Spawn(e) ==> old(self).count(e@) < usize::MAX,
        ensures
            final(self).wf(),
            final(self).id_spec() == old(self).id_spec(),
            final(self).timeout_spec() == old(self).timeout_spec(),
            match msg {
                ErrorsMsg::Open => r == SnackbarAction::Open && forall|t: Seq<char>| final(self).count(t) == old(self).count(t),
                ErrorsMsg::Close => r == SnackbarAction::Close && forall|t: Seq<char>| final(self).count(t) == 0,
                ErrorsMsg::Add(e) => r == SnackbarAction::Keep && final(self).count(e@) == old(self).count(e@) + 1
                    && forall|t: Seq<char>| t != e@ ==> final(self).count(t) == old(self).count(t),
                ErrorsMsg::Spawn(e) => r == SnackbarAction::Open && final(self).count(e@) == old(self).count(e@) + 1
                    && forall|t: Seq<char>| t != e@ ==> final(self).count(t) == old(self).count(t),
            },
    {
        match msg {
            ErrorsMsg::Open => SnackbarAction::Open,
            ErrorsMsg::Close => {
                self.close();
                SnackbarAction::Close
            },
            ErrorsMsg::Add(error) => {
                self.add(error);
                SnackbarAction::Keep
            },
            ErrorsMsg::Spawn(error) => {
                self.add(error);
                SnackbarAction::Open
            },
        }
    }

    /// The lines shown: `(count) error` for each error, in the order held.
    pub fn messages(&self) -> (r: Vec<String>)
        ensures
            r@.len() == self.entries().len(),
            forall|i: int| 0 <= i < r@.len() ==> (#[trigger] r@[i])@
                == seq!['('] + decimal(self.entries()[i].1 as nat) + seq![')', ' '] + self.entries()[i].0@,
    {
        let mut r: Vec<String> = Vec::new();
        let n = self.errors.len();
        for i in 0..n
            invariant
                n == self.entries().len(),
                r@.len() == i,
                forall|j: int| 0 <= j < i ==> (#[trigger] r@[j])@
                    == seq!['('] + decimal(self.entries()[j].1 as nat) + seq![')', ' '] + self.entries()[j].0@,
        {
            let mut line = String::new();
            push_char(&mut line, '(');
            push_decimal(&mut line, self.errors[i].1 as u64);
            push_char(&mut line, ')');
            push_char(&mut line, ' ');
            line.append(self.errors[i].0.as_str());
            assert(line@ =~= seq!['('] + decimal(self.entries()[i as int].1 as nat) + seq![')', ' '] + self.entries()[i as int].0@);
            r.push(line);
        }
        r
    }
}

/// Properties of a block of raw HTML.
pub struct RawHtmlProps {
    pub inner_html: String,
}

/// A block of raw HTML.
pub struct RawHtml {
    pub props: RawHtmlProps,
}

impl RawHtml {
    pub fn create(props: RawHtmlProps) -> (r: Self)
        ensures
            r.props == props,
    {
        RawHtml { props }
    }

    /// Takes new properties; `true` where they differ, so the block is drawn again.
    pub fn changed(&mut self, props: RawHtmlProps) -> (r: bool)
        ensures
            r == (old(self).props.inner_html@ != props.inner_html@),
            r ==> final(self).props == props,
            !r ==> final(self).props == old(self).props,
    {
        if self.props.inner_html != props.inner_html {
            self.props = props;
            true
        } else {
            false
        }
    }
}

} // verus!
