//! The two recognizers of wrapper boilerplate: the line that opens a wrapper
//! and the line that closes it.

use vstd::prelude::*;

verus! {

/// The words that introduce a wrapper.
pub open spec fn wrapper_keyword() -> Seq<char> {
    "object wrapper"@
}

/// `needle` stands in `text` at index `at`.
pub open spec fn occurs_at(text: Seq<char>, needle: Seq<char>, at: int) -> bool {
    &&& 0 <= at
    &&& at + needle.len() <= text.len()
    &&& forall|k: int| 0 <= k < needle.len() ==> text[at + k] == needle[k]
}

/// No line break stands in `text` from index `from` up to, not including, `to`.
pub open spec fn on_one_line(text: Seq<char>, from: int, to: int) -> bool {
    forall|k: int| from <= k < to ==> text[k] != '\n'
}

/// The wrapper keyword stands at `at`, ends at or before `upto`, and no line
/// break separates its end from `upto`.
pub open spec fn keyword_before(text: Seq<char>, at: int, upto: int) -> bool {
    &&& occurs_at(text, wrapper_keyword(), at)
    &&& at + wrapper_keyword().len() <= upto
    &&& on_one_line(text, at + wrapper_keyword().len(), upto)
}

/// Somewhere before `upto`, on the same line, the wrapper keyword has ended.
pub open spec fn keyword_precedes(text: Seq<char>, upto: int) -> bool {
    exists|at: int| keyword_before(text, at, upto)
}

/// An opening brace stands at `brace`, preceded on its line by the wrapper
/// keyword.
pub open spec fn opens_wrapper(text: Seq<char>, brace: int) -> bool {
    &&& 0 <= brace < text.len()
    &&& text[brace] == '{'
    &&& keyword_precedes(text, brace)
}

/// `text` holds the words `object wrapper` and, later on the same line, an
/// opening brace.
pub open spec fn spec_is_wrapper_start(text: Seq<char>) -> bool {
    exists|brace: int| opens_wrapper(text, brace)
}

/// The word `object` stands at `at`, an opening brace at `brace` behind it,
/// and no line break from the one to the other.
pub open spec fn object_line_at(text: Seq<char>, at: int, brace: int) -> bool {
    &&& occurs_at(text, "object"@, at)
    &&& at + "object"@.len() <= brace < text.len()
    &&& text[brace] == '{'
    &&& on_one_line(text, at, brace)
}

/// `text` holds a line with the word `object` and, later on it, an opening
/// brace.
pub open spec fn has_object_line(text: Seq<char>) -> bool {
    exists|at: int, brace: int| object_line_at(text, at, brace)
}

/// The first character of `text` is a closing brace.
pub open spec fn spec_is_wrapper_end(text: Seq<char>) -> bool {
    text.len() > 0 && text[0] == '}'
}

/// How `keyword_precedes` moves on by one character.
proof fn lemma_keyword_precedes_step(text: Seq<char>, j: int)
    requires
        0 <= j < text.len(),
    ensures
        keyword_precedes(text, j + 1) <==> (keyword_precedes(text, j) && text[j] != '\n')
            || occurs_at(text, wrapper_keyword(), j + 1 - wrapper_keyword().len()),
{
    let len = wrapper_keyword().len() as int;
    let next = j + 1;
    if keyword_precedes(text, j) && text[j] != '\n' {
        let at = choose|at: int| keyword_before(text, at, j);
        assert(keyword_before(text, at, next));
    }
    if occurs_at(text, wrapper_keyword(), next - len) {
        assert(keyword_before(text, next - len, next));
    }
    if keyword_precedes(text, next) {
        let at = choose|at: int| keyword_before(text, at, next);
        if at + len <= j {
            assert(keyword_before(text, at, j));
        }
    }
}

/// A text that opens a wrapper holds a line with `object` and, later on
/// it, an opening brace: a text without such a line opens none.
pub proof fn lemma_wrapper_start_needs_object_line(text: Seq<char>)
    ensures
        spec_is_wrapper_start(text) ==> has_object_line(text),
{
    if spec_is_wrapper_start(text) {
        reveal_strlit("object wrapper");
        reveal_strlit("object");
        let brace = choose|brace: int| opens_wrapper(text, brace);
        let at = choose|at: int| keyword_before(text, at, brace);
        assert forall|k: int| 0 <= k < "object"@.len() implies text[at + k] == "object"@[k] by {
            assert(text[at + k] == wrapper_keyword()[k]);
        }
        assert forall|k: int| at <= k < brace implies text[k] != '\n' by {
            if k < at + wrapper_keyword().len() {
                assert(text[at + (k - at)] == wrapper_keyword()[k - at]);
            }
        }
        assert(object_line_at(text, at, brace));
    }
}

/// The opener may stand anywhere: a text that opens a wrapper still opens
/// one with any text put before it and any text put after it.
pub proof fn lemma_wrapper_start_anywhere(before: Seq<char>, text: Seq<char>, after: Seq<char>)
    requires
        spec_is_wrapper_start(text),
    ensures
        spec_is_wrapper_start(before + text + after),
{
    let whole = before + text + after;
    let shift = before.len() as int;
    let brace = choose|brace: int| opens_wrapper(text, brace);
    let at = choose|at: int| keyword_before(text, at, brace);
    assert forall|k: int| 0 <= k < wrapper_keyword().len() implies whole[shift + at + k]
        == wrapper_keyword()[k] by {
        assert(whole[shift + (at + k)] == text[at + k]);
    }
    assert forall|k: int| shift + at + wrapper_keyword().len() <= k < shift + brace implies whole[k]
        != '\n' by {
        assert(whole[shift + (k - shift)] == text[k - shift]);
    }
    assert(whole[shift + brace] == text[brace]);
    assert(keyword_before(whole, shift + at, shift + brace));
    assert(opens_wrapper(whole, shift + brace));
}

/// The characters of a string, one by one.
fn chars_of(s: &str) -> (chars: Vec<char>)
    ensures
        chars@ == s@,
{
    let mut chars: Vec<char> = Vec::new();
    for c in it: s.chars()
        invariant
            chars@ == it.seq().take(it.index()),
            it.seq() == s@,
    {
        chars.push(c);
    }
    chars
}

/// Whether `needle` stands in `text` at index `at`.
fn occurs(text: &Vec<char>, needle: &Vec<char>, at: usize) -> (found: bool)
    ensures
        found == occurs_at(text@, needle@, at as int),
{
    if needle.len() > text.len() || at > text.len() - needle.len() {
        return false;
    }
    let mut k: usize = 0;
    while k < needle.len()
        invariant
            k <= needle.len(),
            at + needle.len() <= text.len(),
            forall|i: int| 0 <= i < k ==> text@[at + i] == needle@[i],
        decreases needle.len() - k,
    {
        if text[at + k] != needle[k] {
            return false;
        }
        k += 1;
    }
    true
}

/// Whether a run of text opens a wrapper: it holds the words
/// `object wrapper` and, later on the same line, an opening brace. The words
/// may stand anywhere on their line.
pub fn is_wrapper_start(content: &str) -> (matched: bool)
    ensures
        matched == spec_is_wrapper_start(content@),
        !has_object_line(content@) ==> !matched,
{
    let text = chars_of(content);
    let keyword = chars_of("object wrapper");
    let mut armed = false;
    let mut j: usize = 0;
    proof {
        reveal_strlit("object wrapper");
        assert(wrapper_keyword().len() == 14);
    }
    while j < text.len()
        invariant
            j <= text.len(),
            text@ == content@,
            keyword@ == wrapper_keyword(),
            armed == keyword_precedes(text@, j as int),
            forall|brace: int| 0 <= brace < j ==> !opens_wrapper(text@, brace),
        decreases text.len() - j,
    {
        let c = text[j];
        if armed && c == '{' {
            proof {
                assert(opens_wrapper(text@, j as int));
                lemma_wrapper_start_needs_object_line(text@);
            }
            return true;
        }
        let ends_here = j + 1 >= keyword.len() && occurs(&text, &keyword, j + 1 - keyword.len());
        proof {
            lemma_keyword_precedes_step(text@, j as int);
        }
        armed = (armed && c != '\n') || ends_here;
        j += 1;
    }
    false
}

/// Whether a run of text closes a wrapper: its very first character is a
/// closing brace. A brace further on does not count.
pub fn is_wrapper_end(content: &str) -> (matched: bool)
    ensures
        matched == spec_is_wrapper_end(content@),
        matched <==> content@.len() > 0 && content@[0] == '}',
{
    if content.is_empty() {
        false
    } else {
        content.get_char(0) == '}'
    }
}

} // verus!
