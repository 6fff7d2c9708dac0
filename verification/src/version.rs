//! Version identifiers.

use vstd::prelude::*;
use vstd::string::*;
use crate::text::{decimal, lemma_decimal_injective, push_decimal};

verus! {

/// Why a request was not carried out.
#[derive(Debug)]
pub enum ListError {
    /// The request itself is invalid: a version selector below 1.
    Configuration,
    /// The repository failed; the messages run from the outermost context
    /// to the root cause.
    RepositoryQuery(Vec<String>),
}

/// The number of one version of an object: a positive integer, ordered
/// numerically.
#[derive(Clone, Copy, Debug, PartialEq, Eq, Structural)]
pub struct VersionId {
    number: u64,
}

impl VersionId {
    /// The number behind the identifier.
    pub closed spec fn value(&self) -> nat {
        self.number as nat
    }

    #[verifier::type_invariant]
    spec fn positive(&self) -> bool {
        self.number >= 1
    }

    /// The canonical text of a version number: `v` and the decimal numeral,
    /// without padding.
    pub open spec fn text_of(n: nat) -> Seq<char> {
        seq!['v'] + decimal(n)
    }

    /// The identifier of version `n`; fails exactly when `n` is below 1.
    pub fn from_integer(n: i64) -> (r: Result<VersionId, ListError>)
        ensures
            n >= 1 ==> r is Ok && r->Ok_0.value() == n,
            n < 1 ==> r is Err && r->Err_0 is Configuration,
    {
        if n >= 1 {
            Ok(VersionId { number: n as u64 })
        } else {
            Err(ListError::Configuration)
        }
    }

    /// The number behind the identifier, which is never below 1.
    pub fn number(&self) -> (r: u64)
        ensures
            r == self.value(),
            r >= 1,
    {
        proof {
            use_type_invariant(self);
        }
        self.number
    }

    /// The canonical text, a function of the number alone.
    pub fn version_str(&self) -> (r: String)
        ensures
            r@ == Self::text_of(self.value()),
    {
        proof {
            reveal_strlit("v");
        }
        let mut out = String::new();
        out.append("v");
        push_decimal(&mut out, self.number);
        assert(out@ =~= Self::text_of(self.value()));
        out
    }
}

/// Two identifiers with the same number are the same identifier, and so
/// have the same canonical text.
pub proof fn lemma_number_determines_id(a: VersionId, b: VersionId)
    requires
        a.value() == b.value(),
    ensures
        a == b,
        VersionId::text_of(a.value()) == VersionId::text_of(b.value()),
{
}

/// The canonical text can be read back: different numbers have different
/// texts.
pub proof fn lemma_text_determines_number(a: nat, b: nat)
    requires
        VersionId::text_of(a) == VersionId::text_of(b),
    ensures
        a == b,
{
    assert(VersionId::text_of(a).skip(1) =~= decimal(a));
    assert(VersionId::text_of(b).skip(1) =~= decimal(b));
    lemma_decimal_injective(a, b);
}

/// Turns an optional version selector into an optional identifier; a
/// selector below 1 is a configuration error.
pub fn parse_version(version_num: Option<i64>) -> (r: Result<Option<VersionId>, ListError>)
    ensures
        version_num is None ==> r is Ok && r->Ok_0 is None,
        version_num is Some && version_num->Some_0 >= 1 ==> r is Ok && r->Ok_0 is Some
            && r->Ok_0->Some_0.value() == version_num->Some_0,
        version_num is Some && version_num->Some_0 < 1 ==> r is Err && r->Err_0 is Configuration,
{
    match version_num {
        Some(n) => match VersionId::from_integer(n) {
            Ok(v) => Ok(Some(v)),
            Err(e) => Err(e),
        },
        None => Ok(None),
    }
}

} // verus!
