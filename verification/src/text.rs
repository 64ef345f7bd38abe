//! Splitting program text into lines and lines into words.

use vstd::prelude::*;
use vstd::string::{is_ascii, is_ascii_spec_bytes, StringSliceAdditionalSpecFns};

verus! {

/// The line terminator.
pub const NEWLINE: u8 = 0x0a;

/// ASCII whitespace: space, tab, line feed, form feed and carriage return.
pub open spec fn is_space(b: u8) -> bool {
    b == 0x20 || b == 0x09 || b == 0x0a || b == 0x0c || b == 0x0d
}

/// The words of `rest`, where `pending` holds the bytes of a word that began
/// before `rest` and has not ended yet.
pub open spec fn words_after(rest: Seq<u8>, pending: Seq<u8>) -> Seq<Seq<u8>>
    decreases rest.len(),
{
    if rest.len() == 0 {
        if pending.len() == 0 {
            Seq::empty()
        } else {
            seq![pending]
        }
    } else if is_space(rest[0]) {
        if pending.len() == 0 {
            words_after(rest.drop_first(), pending)
        } else {
            seq![pending] + words_after(rest.drop_first(), Seq::empty())
        }
    } else {
        words_after(rest.drop_first(), pending.push(rest[0]))
    }
}

/// The maximal runs of bytes of `line` that hold no whitespace, in order.
pub open spec fn words(line: Seq<u8>) -> Seq<Seq<u8>> {
    words_after(line, Seq::empty())
}

/// The lines of `rest`, where `pending` holds the bytes of a line that began
/// before `rest` and has not ended yet.
pub open spec fn lines_after(rest: Seq<u8>, pending: Seq<u8>) -> Seq<Seq<u8>>
    decreases rest.len(),
{
    if rest.len() == 0 {
        if pending.len() == 0 {
            Seq::empty()
        } else {
            seq![pending]
        }
    } else if rest[0] == NEWLINE {
        seq![pending] + lines_after(rest.drop_first(), Seq::empty())
    } else {
        lines_after(rest.drop_first(), pending.push(rest[0]))
    }
}

/// The lines of `text`: the pieces between line feeds, without them. A line
/// feed at the very end closes the last line and opens no further one. A
/// carriage return before a line feed stays in its line, where it is
/// whitespace like any other.
pub open spec fn lines(text: Seq<u8>) -> Seq<Seq<u8>> {
    lines_after(text, Seq::empty())
}

/// A word holds at least one byte and no whitespace.
pub open spec fn is_solid(word: Seq<u8>) -> bool {
    &&& word.len() > 0
    &&& forall|i: int| 0 <= i < word.len() ==> !is_space(#[trigger] word[i])
}

proof fn lemma_words_after_solid(rest: Seq<u8>, pending: Seq<u8>)
    requires
        forall|i: int| 0 <= i < pending.len() ==> !is_space(#[trigger] pending[i]),
    ensures
        forall|k: int|
            0 <= k < words_after(rest, pending).len() ==> is_solid(
                #[trigger] words_after(rest, pending)[k],
            ),
    decreases rest.len(),
{
    let all = words_after(rest, pending);
    if pending.len() > 0 {
        assert(is_solid(pending));
    }
    if rest.len() == 0 {
        assert forall|k: int| 0 <= k < all.len() implies is_solid(#[trigger] all[k]) by {
            assert(all[k] == pending);
        }
    } else if is_space(rest[0]) {
        let tail = words_after(rest.drop_first(), Seq::empty());
        lemma_words_after_solid(rest.drop_first(), Seq::empty());
        assert forall|k: int| 0 <= k < all.len() implies is_solid(#[trigger] all[k]) by {
            if pending.len() == 0 {
                assert(pending =~= Seq::<u8>::empty());
                assert(all[k] == tail[k]);
            } else if k > 0 {
                assert(all[k] == tail[k - 1]);
            } else {
                assert(all[k] == pending);
            }
        }
    } else {
        let longer = pending.push(rest[0]);
        assert forall|i: int| 0 <= i < longer.len() implies !is_space(#[trigger] longer[i]) by {
            if i < pending.len() {
                assert(longer[i] == pending[i]);
            }
        }
        lemma_words_after_solid(rest.drop_first(), longer);
        let tail = words_after(rest.drop_first(), longer);
        assert forall|k: int| 0 <= k < all.len() implies is_solid(#[trigger] all[k]) by {
            assert(all[k] == tail[k]);
        }
    }
}

/// Every word of a line holds at least one byte and no whitespace.
pub proof fn law_words_are_solid(line: Seq<u8>)
    ensures
        forall|k: int| 0 <= k < words(line).len() ==> is_solid(#[trigger] words(line)[k]),
{
    lemma_words_after_solid(line, Seq::empty());
}

/// No line holds a line feed.
pub proof fn law_lines_hold_no_newline(text: Seq<u8>)
    ensures
        forall|k: int, i: int|
            0 <= k < lines(text).len() && 0 <= i < lines(text)[k].len() ==> #[trigger] lines(
                text,
            )[k][i] != NEWLINE,
{
    lemma_lines_after_hold_no_newline(text, Seq::empty());
}

proof fn lemma_lines_after_hold_no_newline(rest: Seq<u8>, pending: Seq<u8>)
    requires
        forall|i: int| 0 <= i < pending.len() ==> #[trigger] pending[i] != NEWLINE,
    ensures
        forall|k: int, i: int|
            0 <= k < lines_after(rest, pending).len() && 0 <= i < lines_after(rest, pending)[k].len()
                ==> #[trigger] lines_after(rest, pending)[k][i] != NEWLINE,
    decreases rest.len(),
{
    let all = lines_after(rest, pending);
    if rest.len() == 0 {
        assert forall|k: int, i: int| 0 <= k < all.len() && 0 <= i < all[k].len() implies #[trigger] all[k][i]
            != NEWLINE by {
            assert(all[k] == pending);
            assert(pending[i] != NEWLINE);
        }
    } else if rest[0] == NEWLINE {
        let tail = lines_after(rest.drop_first(), Seq::empty());
        lemma_lines_after_hold_no_newline(rest.drop_first(), Seq::empty());
        assert forall|k: int, i: int| 0 <= k < all.len() && 0 <= i < all[k].len() implies #[trigger] all[k][i]
            != NEWLINE by {
            if k > 0 {
                assert(all[k] == tail[k - 1]);
                assert(tail[k - 1][i] != NEWLINE);
            } else {
                assert(all[k] == pending);
                assert(pending[i] != NEWLINE);
            }
        }
    } else {
        let longer = pending.push(rest[0]);
        assert forall|i: int| 0 <= i < longer.len() implies #[trigger] longer[i] != NEWLINE by {
            if i < pending.len() {
                assert(longer[i] == pending[i]);
            }
        }
        lemma_lines_after_hold_no_newline(rest.drop_first(), longer);
        let tail = lines_after(rest.drop_first(), longer);
        assert forall|k: int, i: int| 0 <= k < all.len() && 0 <= i < all[k].len() implies #[trigger] all[k][i]
            != NEWLINE by {
            assert(all[k] == tail[k]);
            assert(tail[k][i] != NEWLINE);
        }
    }
}

/// The view of a list of byte strings.
pub open spec fn views(list: Seq<Vec<u8>>) -> Seq<Seq<u8>> {
    Seq::new(list.len(), |i: int| list[i]@)
}

/// The bytes of a run of ASCII characters.
pub open spec fn ascii(word: Seq<char>) -> Seq<u8> {
    Seq::new(word.len(), |i: int| word[i] as u8)
}

/// Whether two byte strings hold the same bytes.
pub fn same_bytes(a: &[u8], b: &[u8]) -> (r: bool)
    ensures
        r == (a@ == b@),
{
    if a.len() != b.len() {
        return false;
    }
    let mut i: usize = 0;
    while i < a.len()
        invariant
            i <= a.len(),
            a.len() == b.len(),
            forall|j: int| 0 <= j < i ==> a@[j] == b@[j],
        decreases a.len() - i,
    {
        if a[i] != b[i] {
            return false;
        }
        i += 1;
    }
    assert(a@ =~= b@);
    true
}

/// Whether `token` spells the ASCII keyword `word`.
pub fn is_word(token: &[u8], word: &str) -> (r: bool)
    requires
        is_ascii(word),
    ensures
        r == (token@ == ascii(word@)),
{
    proof {
        is_ascii_spec_bytes(word);
    }
    same_bytes(token, word.as_bytes())
}

pub fn is_space_byte(b: u8) -> (r: bool)
    ensures
        r == is_space(b),
{
    b == 0x20 || b == 0x09 || b == 0x0a || b == 0x0c || b == 0x0d
}

/// Splits a line into its words.
pub fn split_words(line: &[u8]) -> (r: Vec<Vec<u8>>)
    ensures
        views(r@) == words(line@),
{
    let mut done: Vec<Vec<u8>> = Vec::new();
    let mut pending: Vec<u8> = Vec::new();
    let mut i: usize = 0;
    assert(views(done@) =~= Seq::<Seq<u8>>::empty());
    assert(line@.skip(0) =~= line@);
    while i < line.len()
        invariant
            i <= line.len(),
            words(line@) == views(done@) + words_after(line@.skip(i as int), pending@),
        decreases line.len() - i,
    {
        let b = line[i];
        let ghost before = views(done@);
        proof {
            assert(line@.skip(i as int).drop_first() =~= line@.skip(i + 1));
            assert(line@.skip(i as int)[0] == b);
        }
        if is_space_byte(b) {
            if pending.len() > 0 {
                let ghost word = pending@;
                done.push(pending);
                pending = Vec::new();
                proof {
                    assert(views(done@) =~= before.push(word));
                    assert(before + (seq![word] + words_after(line@.skip(i + 1), Seq::empty()))
                        =~= before.push(word) + words_after(line@.skip(i + 1), Seq::empty()));
                    assert(pending@ =~= Seq::<u8>::empty());
                }
            }
        } else {
            pending.push(b);
        }
        i += 1;
    }
    if pending.len() > 0 {
        let ghost before = views(done@);
        let ghost word = pending@;
        done.push(pending);
        proof {
            assert(views(done@) =~= before.push(word));
            assert(before + seq![word] =~= before.push(word));
        }
    } else {
        assert(views(done@) + Seq::<Seq<u8>>::empty() =~= views(done@));
    }
    done
}

/// Splits a text into its lines.
pub fn split_lines(text: &[u8]) -> (r: Vec<Vec<u8>>)
    ensures
        views(r@) == lines(text@),
{
    let mut done: Vec<Vec<u8>> = Vec::new();
    let mut pending: Vec<u8> = Vec::new();
    let mut i: usize = 0;
    assert(views(done@) =~= Seq::<Seq<u8>>::empty());
    assert(text@.skip(0) =~= text@);
    while i < text.len()
        invariant
            i <= text.len(),
            lines(text@) == views(done@) + lines_after(text@.skip(i as int), pending@),
        decreases text.len() - i,
    {
        let b = text[i];
        let ghost before = views(done@);
        proof {
            assert(text@.skip(i as int).drop_first() =~= text@.skip(i + 1));
            assert(text@.skip(i as int)[0] == b);
        }
        if b == NEWLINE {
            let ghost line = pending@;
            done.push(pending);
            pending = Vec::new();
            proof {
                assert(views(done@) =~= before.push(line));
                assert(before + (seq![line] + lines_after(text@.skip(i + 1), Seq::empty()))
                    =~= before.push(line) + lines_after(text@.skip(i + 1), Seq::empty()));
                assert(pending@ =~= Seq::<u8>::empty());
            }
        } else {
            pending.push(b);
        }
        i += 1;
    }
    if pending.len() > 0 {
        let ghost before = views(done@);
        let ghost line = pending@;
        done.push(pending);
        proof {
            assert(views(done@) =~= before.push(line));
            assert(before + seq![line] =~= before.push(line));
        }
    } else {
        assert(views(done@) + Seq::<Seq<u8>>::empty() =~= views(done@));
    }
    done
}

} // verus!
