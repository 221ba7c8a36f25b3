//! Text as a sequence of characters: comparison and splitting.

use vstd::prelude::*;
use vstd::string::*;
use vstd::utf8::*;

verus! {

/// Whether two texts hold the same characters.
pub fn text_eq(a: &str, b: &str) -> (same: bool)
    ensures
        same == (a@ == b@),
{
    let x = a.as_bytes();
    let y = b.as_bytes();
    proof {
        encode_utf8_decode_utf8(a@);
        encode_utf8_decode_utf8(b@);
    }
    if x.len() != y.len() {
        return false;
    }
    let mut i: usize = 0;
    while i < x.len()
        invariant
            i <= x.len(),
            x.len() == y.len(),
            x@ == encode_utf8(a@),
            y@ == encode_utf8(b@),
            forall|j: int| 0 <= j < i ==> x@[j] == y@[j],
        decreases x.len() - i,
    {
        if x[i] != y[i] {
            return false;
        }
        i = i + 1;
    }
    assert(x@ =~= y@);
    true
}

/// The text that bytes spell: the text whose UTF-8 form they are, where
/// they are the UTF-8 form of a text.
pub open spec fn text_of(bytes: Seq<u8>) -> Option<Seq<char>> {
    if valid_utf8(bytes) {
        Some(decode_utf8(bytes))
    } else {
        None
    }
}

/// The bytes of a text spell that text.
pub proof fn lemma_text_of_its_bytes(text: Seq<char>)
    ensures
        text_of(encode_utf8(text)) == Some(text),
{
    encode_utf8_valid_utf8(text);
    encode_utf8_decode_utf8(text);
}

/// The text of which the bytes are the UTF-8 form.
///
/// Wraps `String::from_utf8` of std, which documents that it makes a
/// `String` of the bytes as they are, and gives an error where the bytes
/// are not valid UTF-8: the bytes of the text that comes back are the bytes
/// that went in, and no text comes back for bytes that are not UTF-8.
#[verifier::external_body]
fn from_utf8(bytes: Vec<u8>) -> (out: Option<String>)
    ensures
        out matches Some(text) ==> encode_utf8(text@) == bytes@,
        out is None ==> !valid_utf8(bytes@),
{
    match String::from_utf8(bytes) {
        Ok(text) => Some(text),
        Err(_) => None,
    }
}

/// The text that `bytes` spell, or nothing where they spell none.
pub fn decode(bytes: Vec<u8>) -> (out: Option<String>)
    ensures
        out.deep_view() == text_of(bytes@),
{
    let out = from_utf8(bytes);
    proof {
        if out is Some {
            lemma_text_of_its_bytes(out->0@);
        }
    }
    out
}

/// Appends one character to a text.
///
/// Wraps `String::push` of std, which documents that it appends the given
/// character to the end of the string: the text afterwards is the text
/// before with `c` behind it.
#[verifier::external_body]
fn push_char(text: &mut String, c: char)
    ensures
        final(text)@ == old(text)@.push(c),
{
    text.push(c)
}

/// The pieces of `s` between the occurrences of `sep`, from left to right.
/// There is one piece more than there are separators: a text without a
/// separator is its own single piece, and a separator at either end or next
/// to another one has an empty piece beside it.
pub open spec fn split_on(s: Seq<char>, sep: char) -> Seq<Seq<char>>
    decreases s.len(),
{
    if s.len() == 0 {
        seq![Seq::empty()]
    } else {
        let before = split_on(s.drop_last(), sep);
        if s.last() == sep {
            before.push(Seq::empty())
        } else {
            before.drop_last().push(before.last().push(s.last()))
        }
    }
}

/// The pieces joined again, with `sep` between each two of them.
pub open spec fn join_with(pieces: Seq<Seq<char>>, sep: char) -> Seq<char>
    decreases pieces.len(),
{
    if pieces.len() == 0 {
        Seq::empty()
    } else if pieces.len() == 1 {
        pieces[0]
    } else {
        join_with(pieces.drop_last(), sep).push(sep) + pieces.last()
    }
}

/// Splitting gives at least one piece, no piece holds the separator, and
/// the pieces joined by the separator are the text that was split.
pub proof fn lemma_split_on(s: Seq<char>, sep: char)
    ensures
        split_on(s, sep).len() >= 1,
        forall|i: int|
            0 <= i < split_on(s, sep).len() ==> !(#[trigger] split_on(s, sep)[i]).contains(sep),
        join_with(split_on(s, sep), sep) == s,
    decreases s.len(),
{
    if s.len() > 0 {
        let init = s.drop_last();
        let before = split_on(init, sep);
        let pieces = split_on(s, sep);
        lemma_split_on(init, sep);
        if s.last() == sep {
            assert(pieces.drop_last() =~= before);
            assert(join_with(pieces, sep) =~= init.push(sep));
            assert(init.push(sep) =~= s);
        } else {
            let grown = before.last().push(s.last());
            assert(pieces.last() == grown);
            assert(pieces.drop_last() =~= before.drop_last());
            assert forall|i: int| 0 <= i < pieces.len() implies !(#[trigger] pieces[i]).contains(
                sep,
            ) by {
                if i == pieces.len() - 1 {
                    assert(!before[before.len() - 1].contains(sep));
                    if grown.contains(sep) {
                        let k = choose|k: int| 0 <= k < grown.len() && grown[k] == sep;
                        if k < before.last().len() {
                            assert(before.last()[k] == sep);
                        }
                    }
                } else {
                    assert(pieces[i] == before[i]);
                }
            }
            if before.len() == 1 {
                assert(join_with(pieces, sep) =~= init.push(s.last()));
            } else {
                assert(join_with(before, sep) == join_with(before.drop_last(), sep).push(sep)
                    + before.last());
                assert(join_with(pieces, sep) =~= join_with(before, sep).push(s.last()));
            }
            assert(init.push(s.last()) =~= s);
        }
    } else {
        assert(join_with(split_on(s, sep), sep) =~= s);
    }
}

/// Joining pieces that hold no separator and splitting the result gives the
/// pieces back.
pub proof fn lemma_split_of_join(pieces: Seq<Seq<char>>, sep: char)
    requires
        pieces.len() >= 1,
        forall|i: int| 0 <= i < pieces.len() ==> !(#[trigger] pieces[i]).contains(sep),
    ensures
        split_on(join_with(pieces, sep), sep) == pieces,
    decreases pieces.len(),
{
    if pieces.len() == 1 {
        lemma_split_of_piece(pieces[0], sep);
        assert(seq![pieces[0]] =~= pieces);
    } else {
        let init = pieces.drop_last();
        assert forall|i: int| 0 <= i < init.len() implies !(#[trigger] init[i]).contains(sep) by {
            assert(init[i] == pieces[i]);
        }
        lemma_split_of_join(init, sep);
        assert(!pieces[pieces.len() - 1].contains(sep));
        lemma_split_append(join_with(init, sep).push(sep), pieces.last(), sep);
        let head = join_with(init, sep).push(sep);
        assert(head.drop_last() =~= join_with(init, sep));
        assert(split_on(head, sep) == init.push(Seq::empty()));
        assert(init.push(Seq::<char>::empty()).drop_last() =~= init);
        assert(Seq::<char>::empty() + pieces.last() =~= pieces.last());
        assert(init.push(pieces.last()) =~= pieces);
    }
}

/// A text without the separator is its own single piece.
pub proof fn lemma_split_of_piece(piece: Seq<char>, sep: char)
    requires
        !piece.contains(sep),
    ensures
        split_on(piece, sep) == seq![piece],
    decreases piece.len(),
{
    if piece.len() > 0 {
        let init = piece.drop_last();
        assert forall|k: int| 0 <= k < init.len() implies init[k] != sep by {
            assert(piece[k] == init[k]);
            assert(piece.contains(piece[k]));
        }
        assert(!init.contains(sep));
        lemma_split_of_piece(init, sep);
        assert(piece.contains(piece.last()));
        assert(init.push(piece.last()) =~= piece);
        assert(seq![init].drop_last().push(piece) =~= seq![piece]);
    } else {
        assert(piece =~= Seq::<char>::empty());
    }
}

/// Text without the separator, put behind a text, only lengthens its last
/// piece.
pub proof fn lemma_split_append(s: Seq<char>, tail: Seq<char>, sep: char)
    requires
        !tail.contains(sep),
    ensures
        split_on(s + tail, sep) == split_on(s, sep).drop_last().push(
            split_on(s, sep).last() + tail,
        ),
    decreases tail.len(),
{
    lemma_split_on(s, sep);
    let pieces = split_on(s, sep);
    if tail.len() == 0 {
        assert(s + tail =~= s);
        assert(pieces.last() + tail =~= pieces.last());
        assert(pieces.drop_last().push(pieces.last()) =~= pieces);
    } else {
        let init = tail.drop_last();
        assert forall|k: int| 0 <= k < init.len() implies init[k] != sep by {
            assert(tail[k] == init[k]);
            assert(tail.contains(tail[k]));
        }
        assert(!init.contains(sep));
        lemma_split_append(s, init, sep);
        assert(tail.contains(tail.last()));
        assert((s + tail).drop_last() =~= s + init);
        assert((s + tail).last() == tail.last());
        let before = split_on(s + init, sep);
        assert(before.drop_last() =~= pieces.drop_last());
        assert((pieces.last() + init).push(tail.last()) =~= pieces.last() + tail);
    }
}

/// The pieces of `s` between the occurrences of `sep`, from left to right.
pub fn split(s: &str, sep: char) -> (pieces: Vec<String>)
    ensures
        pieces.deep_view() == split_on(s@, sep),
{
    let mut done: Vec<String> = Vec::new();
    let mut current = String::new();
    assert(s@.take(0) =~= Seq::<char>::empty());
    assert(done.deep_view() =~= Seq::<Seq<char>>::empty());
    assert(seq![Seq::<char>::empty()] =~= Seq::<Seq<char>>::empty().push(Seq::<char>::empty()));
    for c in it: s.chars()
        invariant
            it.seq() == s@,
            done.deep_view().push(current@) == split_on(s@.take(it.index() as int), sep),
    {
        proof {
            let upto = s@.take(it.index() + 1);
            assert(upto.drop_last() =~= s@.take(it.index() as int));
            assert(upto.last() == c);
            assert(done.deep_view().push(current@).drop_last() =~= done.deep_view());
        }
        if c == sep {
            let ghost before = done.deep_view();
            done.push(current);
            current = String::new();
            assert(done.deep_view() =~= before.push(done[done.len() - 1]@));
        } else {
            push_char(&mut current, c);
        }
    }
    assert(s@.take(s@.len() as int) =~= s@);
    let ghost before = done.deep_view();
    done.push(current);
    assert(done.deep_view() =~= before.push(done[done.len() - 1]@));
    done
}

} // verus!
