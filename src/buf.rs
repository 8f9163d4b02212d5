use vstd::prelude::*;

verus! {

/// The text that stands for a buffer holding `bytes` in diagnostic output.
pub open spec fn buf_debug_text(bytes: Seq<u8>) -> Seq<char> {
    seq!['B', 'u', 'f']
}

/// A wrapper around an owned byte buffer.
///
/// Its diagnostic rendering never shows the bytes it holds.
#[derive(PartialEq)]
pub struct Buf(pub Vec<u8>);

impl View for Buf {
    type V = Seq<u8>;

    open spec fn view(&self) -> Seq<u8> {
        self.0@
    }
}

impl From<Vec<u8>> for Buf {
    fn from(buf: Vec<u8>) -> (r: Buf)
        ensures
            r@ == buf@,
    {
        Buf(buf)
    }
}

impl vstd::std_specs::convert::FromSpecImpl<Vec<u8>> for Buf {
    open spec fn obeys_from_spec() -> bool {
        true
    }

    open spec fn from_spec(v: Vec<u8>) -> Buf {
        Buf(v)
    }
}

impl Buf {
    /// The bytes held.
    pub fn as_bytes(&self) -> (r: &[u8])
        ensures
            r@ == self@,
    {
        self.0.as_slice()
    }

    /// The number of bytes held.
    pub fn len(&self) -> (r: usize)
        ensures
            r == self@.len(),
    {
        self.0.len()
    }

    /// Gives back the bytes.
    pub fn into_vec(self) -> (r: Vec<u8>)
        ensures
            r@ == self@,
    {
        self.0
    }

    /// The diagnostic rendering of the buffer: its type name and nothing of
    /// its contents.
    pub fn debug_string(&self) -> (r: String)
        ensures
            r@ == buf_debug_text(self@),
    {
        let r = String::from_str("Buf");
        proof {
            reveal_strlit("Buf");
        }
        r
    }
}

/// Two buffers render alike in diagnostics whatever bytes they hold, so no
/// byte of a buffer can be read off its rendering.
pub proof fn lemma_debug_redacts(a: Seq<u8>, b: Seq<u8>)
    ensures
        buf_debug_text(a) == buf_debug_text(b),
{
}

} // verus!
