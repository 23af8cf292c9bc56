use vstd::prelude::*;

use crate::error::ParseError;
use crate::read::{checked_read, ReadBinary, ReadScope, U32Be};

verus! {

/// A value derived from the bytes of a scope, holding no borrow of them: a
/// derived value refers into its buffer by offsets, not by references.
pub trait FromScope: Sized {
    /// The value, or the error, that the bytes `bytes` derive.
    spec fn spec_derive(bytes: Seq<u8>) -> Result<Self, ParseError>;

    /// Derives a value from the bytes of `scope`.
    fn derive(scope: &ReadScope) -> (r: Result<Self, ParseError>)
        ensures
            r == Self::spec_derive(scope.bytes()),
    ;
}

/// The big-endian `u32` at the start of the bytes.
impl FromScope for u32 {
    open spec fn spec_derive(bytes: Seq<u8>) -> Result<u32, ParseError> {
        match checked_read::<U32Be>(bytes) {
            Ok((v, _n)) => Ok(v),
            Err(e) => Err(e),
        }
    }

    fn derive(scope: &ReadScope) -> (r: Result<u32, ParseError>) {
        let mut ctxt = scope.ctxt();
        proof {
            assert(ctxt.ahead() =~= scope.bytes());
        }
        U32Be::read(&mut ctxt)
    }
}

/// An owned byte buffer kept together with the value derived from it.
pub struct OwnedScope<D: FromScope> {
    buffer: Vec<u8>,
    derived: D,
}

impl<D: FromScope> OwnedScope<D> {
    /// The owned bytes.
    pub closed spec fn buffer_spec(&self) -> Seq<u8> {
        self.buffer@
    }

    /// The derived value.
    pub closed spec fn derived_spec(&self) -> D {
        self.derived
    }

    /// The derived value is what the buffer derives.
    #[verifier::type_invariant]
    closed spec fn inv(&self) -> bool {
        D::spec_derive(self.buffer@) == Ok::<D, ParseError>(self.derived)
    }

    /// Takes ownership of `buffer` and derives a value from it; on failure
    /// the buffer is dropped and the error returned.
    pub fn try_new(buffer: Vec<u8>) -> (r: Result<OwnedScope<D>, ParseError>)
        ensures
            match D::spec_derive(buffer@) {
                Ok(d) => r matches Ok(o) && o.buffer_spec() == buffer@ && o.derived_spec() == d,
                Err(e) => r == Err::<OwnedScope<D>, ParseError>(e),
            },
    {
        let derived = {
            let scope = ReadScope::new(buffer.as_slice());
            D::derive(&scope)
        };
        match derived {
            Ok(derived) => Ok(OwnedScope { buffer, derived }),
            Err(e) => Err(e),
        }
    }

    /// The derived value, borrowed for as long as the owner is.
    pub fn derived(&self) -> (r: &D)
        ensures
            *r == self.derived_spec(),
            D::spec_derive(self.buffer_spec()) == Ok::<D, ParseError>(*r),
    {
        proof {
            use_type_invariant(self);
        }
        &self.derived
    }

    /// A scope at absolute position 0 over the owned bytes.
    pub fn scope(&self) -> (r: ReadScope<'_>)
        ensures
            r.base_pos() == 0,
            r.bytes() == self.buffer_spec(),
    {
        ReadScope::new(self.buffer.as_slice())
    }
}

/// Deriving through an owner gives what deriving from a borrowed scope over
/// the same bytes gives.
pub proof fn lemma_owned_round_trip<D: FromScope>(owned: OwnedScope<D>, direct: ReadScope)
    requires
        D::spec_derive(owned.buffer_spec()) == Ok::<D, ParseError>(owned.derived_spec()),
        direct.bytes() == owned.buffer_spec(),
    ensures
        D::spec_derive(direct.bytes()) == Ok::<D, ParseError>(owned.derived_spec()),
{
}

} // verus!
