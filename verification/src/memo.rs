//! Parsers that are built when they are first run.

use crate::model::{implements, yields, SpecParser};
use crate::outcome::ParseOutcome;
use crate::trusted::{same, share};
use std::cell::Cell;
use std::rc::Rc;
use vstd::prelude::*;

verus! {

/// The memo of one lazy parser. It is empty until the parser is first run;
/// from then on it holds the parser that its builder returned, and never
/// another.
#[verifier::reject_recursive_types(P)]
#[verifier::reject_recursive_types(B)]
pub struct Memo<P, B: Fn() -> P> {
    maker: Rc<B>,
    slot: Option<Rc<P>>,
    built: Ghost<nat>,
}

impl<P, B: Fn() -> P> Memo<P, B> {
    /// What holds of every memo: the parser it holds, if any, is one that
    /// its builder returned, and the builder has run once if the memo holds
    /// a parser, and not at all if it holds none.
    pub closed spec fn wf(&self) -> bool {
        &&& self.slot matches Some(handle) ==> call_ensures(*self.maker, (), *handle)
        &&& self.built@ == (if self.slot is Some {
            1nat
        } else {
            0nat
        })
    }

    #[verifier::type_invariant]
    spec fn always_wf(&self) -> bool {
        self.wf()
    }

    /// The builder of this memo.
    pub closed spec fn builder(&self) -> B {
        *self.maker
    }

    /// The parser held, if one was built.
    pub closed spec fn parser(&self) -> Option<P> {
        match self.slot {
            Some(handle) => Some(*handle),
            None => None,
        }
    }

    /// How often the builder has been run to fill this memo.
    pub closed spec fn builds(&self) -> nat {
        self.built@
    }

    /// The memo of the builder `build` before the first run.
    pub fn empty(build: Rc<B>) -> (memo: Self)
        ensures
            memo.wf(),
            memo.builder() == *build,
            memo.parser() is None,
            memo.builds() == 0,
    {
        Memo { maker: build, slot: None, built: Ghost(0) }
    }

    /// Whether this memo was made for the very builder that `build` points
    /// to. (For another allocation of an equal builder the answer is no.)
    pub fn belongs_to(&self, build: &Rc<B>) -> (r: bool)
        ensures
            r ==> self.builder() == **build,
    {
        same(&self.maker, build)
    }

    /// Hands out the parser of this memo, running the builder for it only if
    /// the memo is empty. A filled memo is returned as it was, and its
    /// builder is not run.
    pub fn resolve(self) -> (r: (Self, Rc<P>))
        requires
            self.parser() is None ==> call_requires(self.builder(), ()),
        ensures
            r.0.wf(),
            r.0.builder() == self.builder(),
            r.0.parser() == Some(*r.1),
            call_ensures(self.builder(), (), *r.1),
            self.parser() is Some ==> r.0 == self,
            self.parser() is None ==> r.0.builds() == self.builds() + 1,
    {
        proof {
            use_type_invariant(&self);
        }
        match self.slot {
            Some(handle) => {
                let other = share(&handle);
                (Memo { maker: self.maker, slot: Some(handle), built: Ghost(self.built@) }, other)
            },
            None => {
                let build: &B = &*self.maker;
                let handle = Rc::new(build());
                let other = share(&handle);
                (Memo { maker: self.maker, slot: Some(handle), built: Ghost(self.built@ + 1) }, other)
            },
        }
    }

    /// The builder of a memo runs at most once: it has run once where the
    /// memo holds a parser, which is then one that the builder returned, and
    /// not at all where the memo is empty.
    pub proof fn lemma_built_at_most_once(self)
        requires
            self.wf(),
        ensures
            self.builds() <= 1,
            self.builds() == 1 <==> self.parser() is Some,
            self.parser() matches Some(p) ==> call_ensures(self.builder(), (), p),
    {
    }
}

/// The parser that stands for the one `parser_fn` builds. It calls
/// `parser_fn` when it is first run, keeps the parser that comes back, and
/// runs that one on this and on every later input: `parser_fn` runs at most
/// once, however often the returned parser is run, and not at all if it
/// never is. The parser that was built is dropped with the returned parser.
///
/// The returned parser keeps its [`Memo`] in a cell. It puts the memo back
/// before it runs the parser it took from it, so the parser may be run again
/// from within itself. What the cell hands out counts as the memo only if it
/// was made for `parser_fn`. The cell is for one thread: the returned parser
/// cannot be sent to another thread or shared with one.
pub fn lazy<'a, T: DeepView, P, B>(parser_fn: B) -> (r: impl Fn(&'a str) -> ParseOutcome<T, &'a str>) where
    B: Fn() -> P,
    P: Fn(&'a str) -> ParseOutcome<T, &'a str>,

    ensures
        forall|input: &'a str|
            call_requires(parser_fn, ()) && (forall|p: P|
                call_ensures(parser_fn, (), p) ==> call_requires(p, (input,)))
                ==> #[trigger] call_requires(r, (input,)),
        forall|sp: SpecParser<T::V>| #[trigger] yields(parser_fn, sp) ==> implements(r, sp),
{
    let build = Rc::new(parser_fn);
    let cell = Cell::new(Memo::empty(share(&build)));
    move |input: &'a str| -> (o: ParseOutcome<T, &'a str>)
        requires
            call_requires(parser_fn, ()),
            forall|p: P| call_ensures(parser_fn, (), p) ==> call_requires(p, (input,)),
        ensures
            forall|sp: SpecParser<T::V>| #[trigger] yields(parser_fn, sp) ==> o.deep_view() == sp(input@),
        {
            let found = cell.replace(Memo::empty(share(&build)));
            let memo = if found.belongs_to(&build) {
                found
            } else {
                Memo::empty(share(&build))
            };
            let (memo, handle) = memo.resolve();
            let _ = cell.replace(memo);
            let parser: &P = &*handle;
            parser(input)
        }
}

} // verus!
