//! Failures with their causes, as a user is shown them.
use crate::text;
use crate::tunnel::error::{self, Error};
use vstd::prelude::*;

verus! {

/// What went wrong: the innermost cause first, then what it was the cause of.
#[derive(Debug)]
pub struct Failure {
    pub causes: Vec<String>,
}

impl View for Failure {
    type V = Seq<Seq<char>>;

    open spec fn view(&self) -> Seq<Seq<char>> {
        text::texts(self.causes@)
    }
}

impl Failure {
    /// A failure without a further cause.
    pub fn new(what: String) -> (r: Self)
        ensures
            r@ == seq![what@],
    {
        let mut causes: Vec<String> = Vec::new();
        causes.push(what);
        let r = Failure { causes };
        assert(r@ =~= seq![what@]);
        r
    }

    /// A failure without a further cause.
    pub fn of(what: &str) -> (r: Self)
        ensures
            r@ == seq![what@],
    {
        Failure::new(what.to_owned())
    }

    /// What this failure is the cause of.
    pub fn context(self, what: String) -> (r: Self)
        ensures
            r@ == self@.push(what@),
    {
        let mut r = self;
        let ghost before = r@;
        r.causes.push(what);
        assert(r@ =~= before.push(what@));
        r
    }

    /// What a cause outside is the cause of.
    pub fn because(cause: &str, what: String) -> (r: Self)
        ensures
            r@ == seq![cause@, what@],
    {
        let r = Failure::of(cause).context(what);
        assert(r@ =~= seq![cause@, what@]);
        r
    }

    /// What an error of the tunnel is the cause of.
    pub fn caused_by(e: Error, what: String) -> (r: Self)
        ensures
            r@ == seq![error::message(e@), what@],
    {
        let r = Failure::new(e.message()).context(what);
        assert(r@ =~= seq![error::message(e@), what@]);
        r
    }
}

/// What is seen of a failure is all its causes, in order.
pub proof fn all_causes_are_seen(f: Failure, i: int)
    requires
        0 <= i < f.causes@.len(),
    ensures
        f@.len() == f.causes@.len(),
        f@[i] == f.causes@[i]@,
{
}

/// A result whose failure is taken by its view.
pub open spec fn outcome<T>(r: Result<T, Failure>) -> Result<T, Seq<Seq<char>>> {
    match r {
        Ok(v) => Ok(v),
        Err(e) => Err(e@),
    }
}

} // verus!
