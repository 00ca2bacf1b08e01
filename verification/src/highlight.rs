//! Colours for the terminal: a source text with its words painted by kind.

use vstd::prelude::*;
use vstd::string::{StrSliceExecFns, StringExecFns};
use crate::text::{char_is_whitespace, chars_of, is_whitespace, same_chars};

verus! {

/// What a piece of a text is: a word, or one character that parts words.
#[derive(Clone, Copy, Debug, PartialEq, Eq, Structural)]
pub enum ElemType {
    Delimiter,
    Word,
}

/// Whether `c` parts words: white space, a comma and a full stop do.
pub open spec fn is_delimiter(c: char) -> bool {
    is_whitespace(c) || c == ',' || c == '.'
}

/// The pieces of a text, in order: each delimiter by itself, and the words
/// between them, as long as they go.
pub open spec fn pieces(text: Seq<char>) -> Seq<(ElemType, Seq<char>)>
    decreases text.len(),
{
    if text.len() == 0 {
        Seq::<(ElemType, Seq<char>)>::empty()
    } else {
        let before = pieces(text.drop_last());
        let c = text.last();
        if is_delimiter(c) {
            before.push((ElemType::Delimiter, seq![c]))
        } else if before.len() > 0 && before.last().0 == ElemType::Word {
            before.drop_last().push((ElemType::Word, before.last().1.push(c)))
        } else {
            before.push((ElemType::Word, seq![c]))
        }
    }
}

/// The plain value of a list of pieces.
pub open spec fn pieces_view(elems: Seq<(ElemType, &str)>) -> Seq<(ElemType, Seq<char>)> {
    Seq::new(elems.len(), |i: int| (elems[i].0, elems[i].1@))
}

/// The pieces of `text` when the characters from `start` on have no
/// delimiter among them: the pieces of what stands before `start`, and one
/// word behind them unless nothing stands from `start` on.
pub proof fn lemma_pieces_word(text: Seq<char>, start: int)
    requires
        0 <= start <= text.len(),
        start > 0 ==> is_delimiter(text[start - 1]),
        forall|i: int| start <= i < text.len() ==> !is_delimiter(#[trigger] text[i]),
    ensures
        pieces(text) == if start < text.len() {
            pieces(text.take(start)).push((ElemType::Word, text.skip(start)))
        } else {
            pieces(text.take(start))
        },
    decreases text.len(),
{
    if start == text.len() {
        assert(text.take(start) =~= text);
    } else {
        let shorter = text.drop_last();
        lemma_pieces_word(shorter, start);
        assert(shorter.take(start) =~= text.take(start));
        if start < shorter.len() {
            assert(shorter.skip(start).push(text.last()) =~= text.skip(start));
            assert(pieces(shorter).drop_last() =~= pieces(text.take(start)));
        } else {
            assert(seq![text.last()] =~= text.skip(start));
            if start > 0 {
                assert(text.take(start).last() == text[start - 1]);
                assert(text.take(start).drop_last() =~= text.take(start - 1));
            }
        }
    }
}

/// Cuts a text into its pieces.
pub fn split_words<'a>(text: &'a str) -> (r: Vec<(ElemType, &'a str)>)
    ensures
        pieces_view(r@) == pieces(text@),
{
    let chars = chars_of(text);
    let mut out: Vec<(ElemType, &'a str)> = Vec::new();
    let mut start: usize = 0;
    let mut i: usize = 0;
    assert(pieces_view(out@) =~= pieces(chars@.take(0)));
    while i < chars.len()
        invariant
            start <= i <= chars.len(),
            chars@ == text@,
            start > 0 ==> is_delimiter(chars[start - 1]),
            forall|k: int| start <= k < i ==> !is_delimiter(#[trigger] chars[k]),
            pieces_view(out@) == pieces(chars@.take(start as int)),
        decreases chars.len() - i,
    {
        let c = chars[i];
        if char_is_whitespace(c) || c == ',' || c == '.' {
            let ghost before = pieces_view(out@);
            proof {
                lemma_pieces_word(chars@.take(i as int), start as int);
                assert(chars@.take(i as int).take(start as int) =~= chars@.take(start as int));
                assert(chars@.take(i + 1).drop_last() =~= chars@.take(i as int));
            }
            if start != i {
                let word = text.substring_char(start, i);
                assert(word@ =~= chars@.take(i as int).skip(start as int));
                out.push((ElemType::Word, word));
                assert(pieces_view(out@) =~= before.push((ElemType::Word, word@)));
            }
            let ghost middle = pieces_view(out@);
            let mark = text.substring_char(i, i + 1);
            assert(mark@ =~= seq![c]);
            out.push((ElemType::Delimiter, mark));
            assert(pieces_view(out@) =~= middle.push((ElemType::Delimiter, mark@)));
            start = i + 1;
        }
        i += 1;
    }
    proof {
        lemma_pieces_word(chars@, start as int);
    }
    if start < chars.len() {
        let ghost before = pieces_view(out@);
        let word = text.substring_char(start, chars.len());
        assert(word@ =~= chars@.skip(start as int));
        out.push((ElemType::Word, word));
        assert(pieces_view(out@) =~= before.push((ElemType::Word, word@)));
    }
    out
}

/// The colour of a word that the language knows, as the terminal wants it
/// named.
pub open spec fn style(word: Seq<char>) -> Option<Seq<char>> {
    if word == "ngop"@ || word == "'u"@ || word == "meu"@ || word == "pxeu"@ || word == "ayu"@
        || word == "alu"@ || word == "txew"@ {
        Some("0;33"@)
    } else if word == "lì'ukìng"@ {
        Some("1;33"@)
    } else if word == "san"@ || word == "sìk"@ || word == "ke"@ || word == "0"@ || word == "1"@
        || word == "2"@ || word == "3"@ || word == "4"@ || word == "5"@ || word == "6"@ || word
        == "7"@ || word == "8"@ || word == "9"@ || word == "melo"@ || word == "pxelo"@ || word
        == "teng"@ {
        Some("0;31"@)
    } else if word == "fa"@ || word == "si"@ || word == "livu"@ {
        Some("0;32"@)
    } else if word == "txo"@ || word == "tsakrr"@ || word == "txokefyaw"@ || word == "leyn"@
        || word == "vaykrr"@ || word == "ftang"@ {
        Some("0;35"@)
    } else if word == "sì"@ || word == "ulte"@ {
        Some("0;36"@)
    } else {
        None
    }
}

fn is(word: &Vec<char>, literal: &str) -> (r: bool)
    ensures
        r == (word@ == literal@),
{
    let other = chars_of(literal);
    same_chars(word, &other)
}

fn style_of(word: &Vec<char>) -> (r: Option<&'static str>)
    ensures
        match r {
            Some(code) => style(word@) == Some(code@),
            None => style(word@) is None,
        },
{
    if is(word, "ngop") || is(word, "'u") || is(word, "meu") || is(word, "pxeu") || is(word, "ayu")
        || is(word, "alu") || is(word, "txew") {
        Some("0;33")
    } else if is(word, "lì'ukìng") {
        Some("1;33")
    } else if is(word, "san") || is(word, "sìk") || is(word, "ke") || is(word, "0") || is(
        word,
        "1",
    ) || is(word, "2") || is(word, "3") || is(word, "4") || is(word, "5") || is(word, "6") || is(
        word,
        "7",
    ) || is(word, "8") || is(word, "9") || is(word, "melo") || is(word, "pxelo") || is(
        word,
        "teng",
    ) {
        Some("0;31")
    } else if is(word, "fa") || is(word, "si") || is(word, "livu") {
        Some("0;32")
    } else if is(word, "txo") || is(word, "tsakrr") || is(word, "txokefyaw") || is(word, "leyn")
        || is(word, "vaykrr") || is(word, "ftang") {
        Some("0;35")
    } else if is(word, "sì") || is(word, "ulte") {
        Some("0;36")
    } else {
        None
    }
}

/// A word as it is painted. Inside a string, which `san` opens and `sìk`
/// closes, every word has the colour of strings, both marks included.
/// Elsewhere a word has the colour of its kind, and a word that the
/// language does not know the colour of names.
pub open spec fn painted(word: Seq<char>, quoted: bool) -> Seq<char> {
    if quoted || word == "san"@ {
        "\x1b[0;31m"@ + word + "\x1b[0m"@
    } else {
        match style(word) {
            Some(code) => "\x1b["@ + code + "m"@ + word + "\x1b[0m"@,
            None => "\x1b[1;34m"@ + word + "\x1b[0m"@,
        }
    }
}

/// Whether the text is inside a string behind `word`, given whether it was
/// before it.
pub open spec fn quoted_after(word: Seq<char>, quoted: bool) -> bool {
    if word == "sìk"@ {
        false
    } else {
        quoted || word == "san"@
    }
}

/// The pieces painted and put together again, and whether the text is
/// inside a string at their end. Delimiters stay as they are.
pub open spec fn paint(elems: Seq<(ElemType, Seq<char>)>) -> (Seq<char>, bool)
    decreases elems.len(),
{
    if elems.len() == 0 {
        (Seq::<char>::empty(), false)
    } else {
        let (out, quoted) = paint(elems.drop_last());
        let (kind, word) = elems.last();
        if kind == ElemType::Word {
            (out + painted(word, quoted), quoted_after(word, quoted))
        } else {
            (out + word, quoted)
        }
    }
}

/// A source text with colours for the terminal.
pub open spec fn highlighted(source: Seq<char>) -> Seq<char> {
    paint(pieces(source)).0
}

fn paint_word(word: &str, quoted: bool) -> (r: (String, bool))
    ensures
        r.0@ == painted(word@, quoted),
        r.1 == quoted_after(word@, quoted),
{
    let chars = chars_of(word);
    let opens = is(&chars, "san");
    let closes = is(&chars, "sìk");
    let inside = quoted || opens;
    let mut out: String;
    if inside {
        out = "\x1b[0;31m".to_owned();
        out.append(word);
        out.append("\x1b[0m");
    } else {
        match style_of(&chars) {
            Some(code) => {
                out = "\x1b[".to_owned();
                out.append(code);
                out.append("m");
                out.append(word);
                out.append("\x1b[0m");
            },
            None => {
                out = "\x1b[1;34m".to_owned();
                out.append(word);
                out.append("\x1b[0m");
            },
        }
    }
    (out, if closes {
        false
    } else {
        inside
    })
}

/// Paints a source text for the terminal: see `painted`.
pub fn highlight_aysinvi(source: &str) -> (r: String)
    ensures
        r@ == highlighted(source@),
{
    let elems = split_words(source);
    let ghost all = pieces_view(elems@);
    let mut out = String::new();
    let mut quoted = false;
    let mut i: usize = 0;
    assert(all.take(0) =~= Seq::<(ElemType, Seq<char>)>::empty());
    while i < elems.len()
        invariant
            i <= elems.len(),
            all == pieces_view(elems@),
            paint(all.take(i as int)) == (out@, quoted),
        decreases elems.len() - i,
    {
        proof {
            assert(all.take(i + 1).drop_last() =~= all.take(i as int));
            assert(all.take(i + 1).last() == (elems[i as int].0, elems[i as int].1@));
        }
        match elems[i].0 {
            ElemType::Word => {
                let (text, after) = paint_word(elems[i].1, quoted);
                out.append(text.as_str());
                quoted = after;
            },
            ElemType::Delimiter => {
                out.append(elems[i].1);
            },
        }
        i += 1;
    }
    assert(all.take(i as int) =~= all);
    out
}

} // verus!
