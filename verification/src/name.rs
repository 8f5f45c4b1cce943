//! Action names: the symbols by which memory operations are labelled and by
//! which edges refer to them.

use vstd::prelude::*;
use vstd::string::StringSliceAdditionalSpecFns;

verus! {

/// Whether `bytes` can name an action: no byte of it is nul, so that the
/// nul-terminated form holds exactly one terminator.
pub open spec fn is_name(bytes: Seq<u8>) -> bool {
    forall|i: int| 0 <= i < bytes.len() ==> bytes[i] != 0u8
}

/// The form in which a name crosses to the lowering pass: its bytes, then one
/// nul byte.
pub open spec fn c_string(bytes: Seq<u8>) -> Seq<u8> {
    bytes.push(0u8)
}

/// The name of an action. Two names are the same name when their bytes are
/// equal; where the bytes are stored plays no part.
#[derive(Debug)]
pub struct Name {
    bytes: Vec<u8>,
}

impl View for Name {
    type V = Seq<u8>;

    closed spec fn view(&self) -> Seq<u8> {
        self.bytes@
    }
}

impl Name {
    #[verifier::type_invariant]
    spec fn nul_free(&self) -> bool {
        is_name(self.bytes@)
    }

    /// Makes a name of `bytes`, unless one of them is nul.
    pub fn new(bytes: &[u8]) -> (r: Option<Name>)
        ensures
            match r {
                Some(n) => is_name(bytes@) && n@ == bytes@,
                None => !is_name(bytes@),
            },
    {
        let mut copy: Vec<u8> = Vec::new();
        let mut i: usize = 0;
        while i < bytes.len()
            invariant
                i <= bytes.len(),
                copy@ == bytes@.take(i as int),
                is_name(copy@),
            decreases bytes.len() - i,
        {
            let b: u8 = bytes[i];
            if b == 0u8 {
                return None;
            }
            copy.push(b);
            proof {
                assert(bytes@.take(i + 1) =~= bytes@.take(i as int).push(b));
            }
            i += 1;
        }
        proof {
            assert(bytes@.take(i as int) =~= bytes@);
        }
        Some(Name { bytes: copy })
    }

    /// Makes a name of the UTF-8 bytes of `text`, unless one of them is nul.
    pub fn from_text(text: &str) -> (r: Option<Name>)
        ensures
            match r {
                Some(n) => is_name(text.spec_bytes()) && n@ == text.spec_bytes(),
                None => !is_name(text.spec_bytes()),
            },
    {
        Name::new(text.as_bytes())
    }

    /// The bytes of the name, without a terminator.
    pub fn as_bytes(&self) -> (b: &[u8])
        ensures
            b@ == self@,
            is_name(b@),
    {
        proof {
            use_type_invariant(self);
        }
        self.bytes.as_slice()
    }

    /// Whether `self` and `other` are the same name.
    pub fn same(&self, other: &Name) -> (r: bool)
        ensures
            r == (self@ == other@),
    {
        if self.bytes.len() != other.bytes.len() {
            return false;
        }
        let mut i: usize = 0;
        while i < self.bytes.len()
            invariant
                i <= self.bytes.len(),
                self.bytes.len() == other.bytes.len(),
                self.bytes@.take(i as int) == other.bytes@.take(i as int),
            decreases self.bytes.len() - i,
        {
            if self.bytes[i] != other.bytes[i] {
                return false;
            }
            proof {
                assert(self.bytes@.take(i + 1) =~= self.bytes@.take(i as int).push(
                    self.bytes@[i as int],
                ));
                assert(other.bytes@.take(i + 1) =~= other.bytes@.take(i as int).push(
                    other.bytes@[i as int],
                ));
            }
            i += 1;
        }
        proof {
            assert(self.bytes@.take(i as int) =~= self.bytes@);
            assert(other.bytes@.take(i as int) =~= other.bytes@);
        }
        true
    }

    /// The name as the lowering pass takes it: nul-terminated.
    pub fn to_c_bytes(&self) -> (r: Vec<u8>)
        ensures
            r@ == c_string(self@),
    {
        let mut out: Vec<u8> = Vec::new();
        let mut i: usize = 0;
        while i < self.bytes.len()
            invariant
                i <= self.bytes.len(),
                out@ == self.bytes@.take(i as int),
            decreases self.bytes.len() - i,
        {
            out.push(self.bytes[i]);
            proof {
                assert(self.bytes@.take(i + 1) =~= self.bytes@.take(i as int).push(
                    self.bytes@[i as int],
                ));
            }
            i += 1;
        }
        proof {
            assert(self.bytes@.take(i as int) =~= self.bytes@);
        }
        out.push(0u8);
        out
    }
}

impl PartialEq for Name {
    fn eq(&self, other: &Name) -> (r: bool) {
        self.same(other)
    }
}

impl vstd::std_specs::cmp::PartialEqSpecImpl for Name {
    open spec fn obeys_eq_spec() -> bool {
        true
    }

    open spec fn eq_spec(&self, other: &Name) -> bool {
        self@ == other@
    }
}

impl Eq for Name {}

impl Clone for Name {
    fn clone(&self) -> (copy: Name)
        ensures
            copy@ == self@,
    {
        proof {
            use_type_invariant(self);
        }
        let bytes = self.bytes.clone();
        proof {
            assert(bytes@ =~= self.bytes@);
        }
        Name { bytes }
    }
}

/// The nul-terminated form of `bytes`, unless one of them is nul already: a
/// reader that stops at the first nul would then see less than was meant.
pub fn nul_terminated(bytes: &[u8]) -> (r: Option<Vec<u8>>)
    ensures
        match r {
            Some(terminated) => is_name(bytes@) && terminated@ == c_string(bytes@),
            None => !is_name(bytes@),
        },
{
    match Name::new(bytes) {
        Some(name) => Some(name.to_c_bytes()),
        None => None,
    }
}

/// A nul-terminated name ends where its first nul byte stands, so the bytes
/// before that byte are the name again.
pub proof fn lemma_c_string_ends_at_first_nul(name: Seq<u8>)
    requires
        is_name(name),
    ensures
        c_string(name).len() == name.len() + 1,
        c_string(name)[name.len() as int] == 0u8,
        forall|i: int| 0 <= i < name.len() ==> c_string(name)[i] != 0u8,
        c_string(name).take(name.len() as int) == name,
{
    assert(c_string(name).take(name.len() as int) =~= name);
}

/// Two names with the same nul-terminated form are the same name.
pub proof fn lemma_c_string_injective(a: Seq<u8>, b: Seq<u8>)
    requires
        c_string(a) == c_string(b),
    ensures
        a == b,
{
    assert(c_string(a).drop_last() =~= a);
    assert(c_string(b).drop_last() =~= b);
}

} // verus!
