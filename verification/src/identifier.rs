use crate::error::RwError;
use crate::wire::{read_agrees, read_string, read_string_spec, string_bytes, write_string, Decoded};
use vstd::prelude::*;
use vstd::string::{StrSliceExecFns, StringExecFns};

verus! {

/// A namespaced identifier such as `minecraft:stone`.
#[derive(Debug, Hash)]
pub struct Identifier {
    pub namespace: String,
    pub value: String,
}

impl View for Identifier {
    type V = (Seq<char>, Seq<char>);

    open spec fn view(&self) -> (Seq<char>, Seq<char>) {
        (self.namespace@, self.value@)
    }
}

impl PartialEq for Identifier {
    fn eq(&self, other: &Self) -> (r: bool) {
        self.namespace == other.namespace && self.value == other.value
    }
}

impl vstd::std_specs::cmp::PartialEqSpecImpl for Identifier {
    open spec fn obeys_eq_spec() -> bool {
        true
    }

    open spec fn eq_spec(&self, other: &Identifier) -> bool {
        self.namespace@ == other.namespace@ && self.value@ == other.value@
    }
}

impl Clone for Identifier {
    fn clone(&self) -> (r: Self)
        ensures
            r == *self,
    {
        Identifier { namespace: self.namespace.clone(), value: self.value.clone() }
    }
}

impl Eq for Identifier {

}

/// The text form of an identifier: namespace, a colon, value.
pub open spec fn identifier_text(id: (Seq<char>, Seq<char>)) -> Seq<char> {
    id.0 + seq![':'] + id.1
}

/// Splitting text at its first colon, as an identifier is read: the part
/// before is the namespace, the part after the value; without a colon the
/// whole text is the namespace and the value is empty.
pub open spec fn split_identifier(s: Seq<char>) -> (Seq<char>, Seq<char>) {
    match s.index_of_first(':') {
        Some(i) => (s.take(i), s.skip(i + 1)),
        None => (s, Seq::empty()),
    }
}

/// Reading an identifier from the wire: a string, split at its first colon.
pub open spec fn read_identifier_spec(s: Seq<u8>) -> Decoded<(Seq<char>, Seq<char>)> {
    match read_string_spec(s) {
        Decoded::Value(text, n) => Decoded::Value(split_identifier(text), n),
        Decoded::Failed(e) => Decoded::Failed(e),
        Decoded::Aborts => Decoded::Aborts,
    }
}

/// The wire bytes of an identifier.
pub open spec fn identifier_bytes(id: (Seq<char>, Seq<char>)) -> Seq<u8> {
    string_bytes(identifier_text(id))
}

impl Identifier {
    pub fn new(value: &str) -> (r: Self)
        ensures
            r.namespace@ == "minecraft"@,
            r.value@ == value@,
    {
        Self { namespace: String::from_str("minecraft"), value: String::from_str(value) }
    }

    pub fn with_namespace(namespace: &str, value: &str) -> (r: Self)
        ensures
            r.namespace@ == namespace@,
            r.value@ == value@,
    {
        Self { namespace: String::from_str(namespace), value: String::from_str(value) }
    }

    pub fn const_new(value: &str) -> (r: Self)
        ensures
            r.namespace@ == "minecraft"@,
            r.value@ == value@,
    {
        Self::new(value)
    }

    pub fn const_with_namespace(namespace: &str, value: &str) -> (r: Self)
        ensures
            r.namespace@ == namespace@,
            r.value@ == value@,
    {
        Self::with_namespace(namespace, value)
    }

    /// The text form `namespace:value`.
    pub fn to_string(&self) -> (r: String)
        ensures
            r@ == identifier_text(self@),
    {
        let s = self.namespace.clone();
        let s = s.concat(":");
        proof {
            reveal_strlit(":");
        }
        let s = s.concat(self.value.as_str());
        assert(s@ =~= identifier_text(self@));
        s
    }

    /// Makes an identifier from its text form, splitting at the first colon.
    pub fn from_text(text: &str) -> (r: Self)
        ensures
            r@ == split_identifier(text@),
    {
        let len = text.unicode_len();
        let mut i: usize = 0;
        while i < len
            invariant
                len == text@.len(),
                i <= len,
                forall|j: int| 0 <= j < i ==> text@[j] != ':',
            ensures
                i == len || text@[i as int] == ':',
            decreases len - i,
        {
            if text.get_char(i) == ':' {
                break ;
            }
            i = i + 1;
        }
        proof {
            text@.index_of_first_ensures(':');
        }
        if i < len && text.get_char(i) == ':' {
            let namespace = text.substring_char(0, i);
            let value = text.substring_char(i + 1, len);
            proof {
                let k = text@.index_of_first(':');
                assert(k == Some(i as int)) by {
                    let ki = k->0;
                    if ki < i {
                        assert(text@[ki] != ':');
                    } else if ki > i {
                    }
                }
                assert(text@.take(i as int) =~= namespace@);
                assert(text@.skip(i + 1) =~= value@);
            }
            Self { namespace: namespace.to_owned(), value: value.to_owned() }
        } else {
            proof {
                assert(!text@.contains(':'));
            }
            Self { namespace: text.to_owned(), value: String::new() }
        }
    }

    /// Writes the identifier as the string `namespace:value`.
    pub fn write_into(&self, out: &mut Vec<u8>)
        requires
            vstd::utf8::encode_utf8(identifier_text(self@)).len() <= i32::MAX,
        ensures
            final(out)@ == old(out)@ + identifier_bytes(self@),
    {
        let s = self.to_string();
        write_string(s.as_str(), out);
    }

    /// Reads an identifier: a string, split at its first colon.
    pub fn read_from(buf: &[u8], pos: usize) -> (res: Result<(Identifier, usize), RwError>)
        requires
            pos <= buf@.len(),
            !(read_identifier_spec(buf@.skip(pos as int)) is Aborts),
        ensures
            read_agrees(res, pos, read_identifier_spec(buf@.skip(pos as int))),
    {
        let (s, p) = read_string(buf, pos)?;
        Ok((Identifier::from_text(s.as_str()), p))
    }
}

/// Law: the text form of an identifier whose namespace holds no colon splits
/// back into the same identifier.
pub proof fn lemma_identifier_text_roundtrip(id: (Seq<char>, Seq<char>))
    requires
        !id.0.contains(':'),
    ensures
        split_identifier(identifier_text(id)) == id,
{
    let t = identifier_text(id);
    let n = id.0.len() as int;
    t.index_of_first_ensures(':');
    assert(t[n] == ':');
    assert(t.contains(':'));
    let k = t.index_of_first(':')->0;
    if k < n {
        assert(t[k] == id.0[k]);
        assert(id.0.contains(':'));
    } else if k > n {
    }
    assert(t.take(n) =~= id.0);
    assert(t.skip(n + 1) =~= id.1);
}

/// Law: an identifier written to the wire whose namespace holds no colon
/// reads back as the same identifier, taking exactly the bytes written.
pub proof fn lemma_identifier_roundtrip(id: (Seq<char>, Seq<char>), rest: Seq<u8>)
    requires
        !id.0.contains(':'),
        vstd::utf8::encode_utf8(identifier_text(id)).len() <= i32::MAX,
    ensures
        read_identifier_spec(identifier_bytes(id) + rest) == Decoded::Value(
            id,
            identifier_bytes(id).len(),
        ),
{
    crate::wire::lemma_string_roundtrip(identifier_text(id), rest);
    lemma_identifier_text_roundtrip(id);
}

} // verus!
