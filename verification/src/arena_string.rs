//! Strings whose bytes live in an arena.

use crate::bump::ThreadBump;
use crate::item::ArenaItem;
use crate::memory::{overwrite, same_inside};
use crate::words::{load_word, word_bytes};
use vstd::prelude::*;
use vstd::utf8::{decode_utf8, encode_utf8, encode_utf8_decode_utf8, encode_utf8_valid_utf8, valid_utf8};

verus! {

/// Where in an arena the bytes of a string stand.
#[derive(Clone, Copy, Debug)]
pub struct ArenaString {
    start: usize,
    len: usize,
}

/// `core::str::from_utf8`: bytes that are valid UTF-8 come back as the string that they
/// encode, and no others do.
#[verifier::external_body]
fn text_of_bytes(bytes: &[u8]) -> (text: Option<&str>)
    ensures
        text is Some <==> valid_utf8(bytes@),
        text matches Some(found) ==> encode_utf8(found@) == bytes@,
{
    core::str::from_utf8(bytes).ok()
}

impl ArenaString {
    /// Offset of the first byte.
    pub closed spec fn start(self) -> usize {
        self.start
    }

    /// Number of bytes.
    pub closed spec fn len(self) -> usize {
        self.len
    }

    /// Offset behind the last byte.
    pub open spec fn end(self) -> int {
        self.start() + self.len()
    }

    /// The bytes of the string in `mem`.
    pub open spec fn bytes_in(self, mem: Seq<u8>) -> Seq<u8> {
        mem.subrange(self.start() as int, self.end())
    }

    /// The characters of the string in `mem`.
    pub open spec fn text_in(self, mem: Seq<u8>) -> Seq<char> {
        decode_utf8(self.bytes_in(mem))
    }

    /// The string has been handed out by `bump` and not been taken back, and is text.
    pub open spec fn valid_in(self, bump: ThreadBump<'_>) -> bool {
        &&& self.end() <= bump.used() <= bump.bytes().len()
        &&& valid_utf8(self.bytes_in(bump.bytes()))
    }

    /// Copies `text` into the arena.
    pub fn from_str_in(text: &str, bump: &mut ThreadBump<'_>) -> (string: ArenaString)
        requires
            old(bump).wf(),
            old(bump).used() + encode_utf8(text@).len() <= old(bump).bytes().len(),
        ensures
            final(bump).wf(),
            string.start() == old(bump).used(),
            string.len() == encode_utf8(text@).len(),
            string.end() == final(bump).used(),
            string.valid_in(*final(bump)),
            string.bytes_in(final(bump).bytes()) == encode_utf8(text@),
            string.text_in(final(bump).bytes()) == text@,
            final(bump).bytes() == overwrite(
                old(bump).bytes(),
                string.start() as int,
                encode_utf8(text@),
            ),
            final(bump).home() == old(bump).home(),
            final(final(bump).memory)@ == final(old(bump).memory)@,
    {
        let len: usize = text.as_bytes().len();
        let start: usize = bump.alloc_str(text);
        let string = ArenaString { start, len };
        proof {
            assert(string.bytes_in(bump.bytes()) =~= encode_utf8(text@));
            encode_utf8_valid_utf8(text@);
            encode_utf8_decode_utf8(text@);
        }
        string
    }

    /// The string as it stands in the arena.
    pub fn deref<'b>(&self, bump: &'b ThreadBump<'_>) -> (text: &'b str)
        requires
            self.valid_in(*bump),
        ensures
            text@ == self.text_in(bump.bytes()),
            encode_utf8(text@) == self.bytes_in(bump.bytes()),
    {
        let memory: &'b [u8] = bump.as_slice();
        let bytes: &'b [u8] = vstd::slice::slice_subrange(memory, self.start, self.start + self.len);
        let text: &'b str = text_of_bytes(bytes).unwrap();
        proof {
            encode_utf8_decode_utf8(text@);
        }
        text
    }

    /// A copy of the string outside the arena.
    pub fn to_string(&self, bump: &ThreadBump<'_>) -> (text: String)
        requires
            self.valid_in(*bump),
        ensures
            text@ == self.text_in(bump.bytes()),
    {
        self.deref(bump).to_owned()
    }
}

/// A string depends only on its own bytes.
pub proof fn lemma_string_frame(string: ArenaString, left: Seq<u8>, right: Seq<u8>)
    requires
        string.end() <= left.len(),
        string.end() <= right.len(),
        same_inside(left, right, string.start() as int, string.end()),
    ensures
        string.bytes_in(left) == string.bytes_in(right),
        string.text_in(left) == string.text_in(right),
{
    assert(string.bytes_in(left) =~= string.bytes_in(right));
}

impl ArenaItem for ArenaString {
    open spec fn word_count() -> nat {
        2
    }

    closed spec fn words(self) -> Seq<usize> {
        seq![self.start, self.len]
    }

    closed spec fn from_words(words: Seq<usize>) -> Self {
        ArenaString { start: words[0], len: words[1] }
    }

    proof fn lemma_word_count() {
    }

    proof fn lemma_round_trip(self) {
    }

    fn count() -> (words: usize) {
        2
    }

    fn word(&self, index: usize) -> (word: usize) {
        if index == 0 {
            self.start
        } else {
            self.len
        }
    }

    fn load(memory: &[u8], at: usize) -> (item: Self) {
        let size: usize = word_bytes();
        let total: usize = memory.len();
        ArenaString { start: load_word(memory, at), len: load_word(memory, at + size) }
    }
}

} // verus!
