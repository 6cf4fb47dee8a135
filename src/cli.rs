use vstd::prelude::*;
use vstd::string::StringSliceAdditionalSpecFns;
use vstd::utf8::{decode_utf8, is_char_boundary};

verus! {

/// A completion or hint candidate: the text shown, and how many of its
/// leading bytes a completion inserts.
#[derive(Clone, Debug, PartialEq, Eq, Hash)]
pub struct CommandHint {
    pub display: String,
    pub complete_up_to: usize,
}

/// Whether a hint's completion ends on a character boundary of its text.
pub open spec fn completes_on_boundary(h: CommandHint) -> bool {
    is_char_boundary(bytes_of(h.display@), h.complete_up_to as int)
}

/// The UTF-8 bytes of a string.
pub open spec fn bytes_of(s: Seq<char>) -> Seq<u8> {
    vstd::utf8::encode_utf8(s)
}

/// The characters of `s` from byte offset `from` on.
pub open spec fn text_from(s: Seq<char>, from: int) -> Seq<char> {
    decode_utf8(bytes_of(s).subrange(from, bytes_of(s).len() as int))
}

/// The characters of `s` before byte offset `to`.
pub open spec fn text_before(s: Seq<char>, to: int) -> Seq<char> {
    decode_utf8(bytes_of(s).subrange(0, to))
}

/// The characters with the Unicode `White_Space` property.
pub open spec fn is_white_space(c: char) -> bool {
    ('\u{9}' <= c && c <= '\u{d}') || c == ' ' || c == '\u{85}' || c == '\u{a0}' || c
        == '\u{1680}' || ('\u{2000}' <= c && c <= '\u{200a}') || c == '\u{2028}' || c
        == '\u{2029}' || c == '\u{202f}' || c == '\u{205f}' || c == '\u{3000}'
}

/// Whether `c` has the Unicode `White_Space` property.
fn char_is_whitespace(c: char) -> (r: bool)
    ensures
        r == is_white_space(c),
{
    ('\u{9}' <= c && c <= '\u{d}') || c == ' ' || c == '\u{85}' || c == '\u{a0}' || c
        == '\u{1680}' || ('\u{2000}' <= c && c <= '\u{200a}') || c == '\u{2028}' || c
        == '\u{2029}' || c == '\u{202f}' || c == '\u{205f}' || c == '\u{3000}'
}

/// Relies on `DoubleEndedIterator::next_back` of `str::chars`: the last
/// character, if any.
#[verifier::external_body]
fn last_char(s: &str) -> (r: Option<char>)
    ensures
        s@.len() == 0 ==> r is None,
        s@.len() > 0 ==> r == Some(s@.last()),
{
    s.chars().next_back()
}

/// Relies on `str::starts_with` with a string pattern: whether `prefix`
/// is a prefix of `s`.
#[verifier::external_body]
fn starts_with(s: &str, prefix: &str) -> (r: bool)
    ensures
        r == prefix@.is_prefix_of(s@),
{
    s.starts_with(prefix)
}

proof fn lemma_split_text(s: &str, res: (&str, &str), mid: usize)
    requires
        res.0.spec_bytes() =~= s.spec_bytes().subrange(0, mid as int),
        res.1.spec_bytes() =~= s.spec_bytes().subrange(mid as int, s.spec_bytes().len() as int),
    ensures
        res.0@ == text_before(s@, mid as int),
        res.1@ == text_from(s@, mid as int),
{
    vstd::utf8::encode_utf8_decode_utf8(res.0@);
    vstd::utf8::encode_utf8_decode_utf8(res.1@);
}

proof fn lemma_encode_concat(a: Seq<char>, b: Seq<char>)
    ensures
        bytes_of(a + b) == bytes_of(a) + bytes_of(b),
    decreases a.len(),
{
    if a.len() == 0 {
        assert(a + b =~= b);
        assert(bytes_of(a) + bytes_of(b) =~= bytes_of(b));
    } else {
        lemma_encode_concat(a.drop_first(), b);
        assert((a + b).drop_first() =~= a.drop_first() + b);
        assert((a + b)[0] == a[0]);
        assert(bytes_of(a + b) =~= bytes_of(a) + bytes_of(b));
    }
}

/// The end of the encoding of a prefix is a character boundary of the
/// whole encoding.
proof fn lemma_prefix_ends_on_boundary(a: Seq<char>, b: Seq<char>)
    ensures
        is_char_boundary(bytes_of(a + b), bytes_of(a).len() as int),
    decreases a.len(),
{
    lemma_encode_concat(a, b);
    vstd::utf8::encode_utf8_valid_utf8(a + b);
    if a.len() > 0 {
        let bytes = bytes_of(a + b);
        vstd::utf8::encode_utf8_first_scalar(a + b);
        assert((a + b).drop_first() =~= a.drop_first() + b);
        assert(vstd::utf8::pop_first_scalar(bytes) =~= bytes_of(a.drop_first() + b));
        lemma_prefix_ends_on_boundary(a.drop_first(), b);
        lemma_encode_concat(a.drop_first(), b);
    }
}

/// A character boundary at or past the end of a prefix's encoding is,
/// shifted by that length, a character boundary of the rest's encoding.
proof fn lemma_boundary_in_rest(a: Seq<char>, b: Seq<char>, c: int)
    requires
        is_char_boundary(bytes_of(a + b), c),
        c >= bytes_of(a).len(),
    ensures
        is_char_boundary(bytes_of(b), c - bytes_of(a).len()),
    decreases a.len(),
{
    vstd::utf8::encode_utf8_valid_utf8(a + b);
    vstd::utf8::encode_utf8_valid_utf8(b);
    if a.len() == 0 {
        assert(a + b =~= b);
    } else {
        let bytes = bytes_of(a + b);
        vstd::utf8::encode_utf8_first_scalar(a + b);
        assert((a + b).drop_first() =~= a.drop_first() + b);
        assert((a + b)[0] == a[0]);
        assert(vstd::utf8::pop_first_scalar(bytes) =~= bytes_of(a.drop_first() + b));
        lemma_boundary_in_rest(a.drop_first(), b, c - vstd::utf8::length_of_first_scalar(bytes));
    }
}

/// A string splits at a character boundary into the text before it, whose
/// encoding is that long, and the text from it on.
proof fn lemma_split_at_boundary(s: Seq<char>, k: int)
    requires
        is_char_boundary(bytes_of(s), k),
    ensures
        s == text_before(s, k) + text_from(s, k),
        bytes_of(text_before(s, k)).len() == k,
{
    let bytes = bytes_of(s);
    vstd::utf8::encode_utf8_valid_utf8(s);
    vstd::utf8::encode_utf8_decode_utf8(s);
    vstd::utf8::valid_utf8_split(bytes, k);
    vstd::utf8::decode_utf8_split(bytes, k);
    vstd::utf8::decode_utf8_encode_utf8(bytes.subrange(0, k));
}

impl CommandHint {
    /// A hint showing `text` whose completion inserts `complete_up_to`,
    /// which must begin `text`.
    pub fn new(text: &str, complete_up_to: &str) -> (r: Self)
        requires
            complete_up_to@.is_prefix_of(text@),
        ensures
            r.display@ == text@,
            r.complete_up_to == bytes_of(complete_up_to@).len(),
            completes_on_boundary(r),
    {
        proof {
            let rest = text@.subrange(complete_up_to@.len() as int, text@.len() as int);
            assert(text@ =~= complete_up_to@ + rest);
            lemma_prefix_ends_on_boundary(complete_up_to@, rest);
        }
        CommandHint { display: text.to_owned(), complete_up_to: complete_up_to.as_bytes().len() }
    }

    /// The hint with its first `strip_chars` bytes removed, which must end
    /// on a character boundary; the completion shrinks by as much, down to
    /// nothing.
    pub fn suffix(&self, strip_chars: usize) -> (r: Self)
        requires
            is_char_boundary(bytes_of(self.display@), strip_chars as int),
        ensures
            r.display@ == text_from(self.display@, strip_chars as int),
            r.complete_up_to == if self.complete_up_to >= strip_chars {
                self.complete_up_to - strip_chars
            } else {
                0
            },
            completes_on_boundary(*self) ==> completes_on_boundary(r),
    {
        proof {
            lemma_split_at_boundary(self.display@, strip_chars as int);
            vstd::utf8::encode_utf8_valid_utf8(text_from(self.display@, strip_chars as int));
            if completes_on_boundary(*self) && self.complete_up_to >= strip_chars {
                lemma_boundary_in_rest(
                    text_before(self.display@, strip_chars as int),
                    text_from(self.display@, strip_chars as int),
                    self.complete_up_to as int,
                );
            }
        }
        let s = self.display.as_str();
        let parts = s.split_at(strip_chars);
        proof {
            lemma_split_text(s, parts, strip_chars);
        }
        CommandHint {
            display: parts.1.to_owned(),
            complete_up_to: self.complete_up_to.saturating_sub(strip_chars),
        }
    }

    /// The text shown for the candidate.
    pub fn display(&self) -> (r: &str)
        ensures
            r@ == self.display@,
    {
        self.display.as_str()
    }

    /// The text that replaces the completed word.
    pub fn replacement(&self) -> (r: &str)
        ensures
            r@ == self.display@,
    {
        self.display.as_str()
    }

    /// What accepting the hint inserts: its first `complete_up_to` bytes,
    /// or nothing when that is zero.
    pub fn completion(&self) -> (r: Option<&str>)
        requires
            completes_on_boundary(*self),
        ensures
            self.complete_up_to == 0 ==> r is None,
            self.complete_up_to > 0 ==> r is Some && r->Some_0@ == text_before(
                self.display@,
                self.complete_up_to as int,
            ),
    {
        if self.complete_up_to > 0 {
            let s = self.display.as_str();
            let parts = s.split_at(self.complete_up_to);
            proof {
                lemma_split_text(s, parts, self.complete_up_to);
            }
            Some(parts.0)
        } else {
            None
        }
    }
}

/// A hint as the text it shows and the length of its completion.
pub open spec fn hint_view(h: CommandHint) -> (Seq<char>, usize) {
    (h.display@, h.complete_up_to)
}

/// A hint with its first `strip` bytes removed.
pub open spec fn stripped(h: (Seq<char>, usize), strip: usize) -> (Seq<char>, usize) {
    (text_from(h.0, strip as int), if h.1 >= strip { (h.1 - strip) as usize } else { 0 })
}

/// Whether a hint extends `typed`.
pub open spec fn extends(h: (Seq<char>, usize), typed: Seq<char>) -> bool {
    typed.is_prefix_of(h.0)
}

/// Stripping `a` bytes from a hint and then `b` more is the same as
/// stripping `a + b` bytes at once.
pub proof fn lemma_suffix_composes(h: (Seq<char>, usize), a: usize, b: usize)
    requires
        is_char_boundary(bytes_of(h.0), a as int),
        is_char_boundary(bytes_of(text_from(h.0, a as int)), b as int),
        a + b <= usize::MAX,
    ensures
        stripped(stripped(h, a), b) == stripped(h, (a + b) as usize),
{
    let bytes = bytes_of(h.0);
    vstd::utf8::encode_utf8_valid_utf8(h.0);
    vstd::utf8::valid_utf8_split(bytes, a as int);
    let rest = bytes.subrange(a as int, bytes.len() as int);
    vstd::utf8::decode_utf8_encode_utf8(rest);
    assert(bytes_of(text_from(h.0, a as int)) == rest);
    assert(rest.subrange(b as int, rest.len() as int) =~= bytes.subrange(a + b, bytes.len() as int));
}

/// The hints that extend `typed`, in order, each with the typed part
/// stripped.
pub open spec fn candidates(hints: Seq<(Seq<char>, usize)>, typed: Seq<char>, strip: usize) -> Seq<
    (Seq<char>, usize),
>
    decreases hints.len(),
{
    if hints.len() == 0 {
        Seq::empty()
    } else {
        let rest = candidates(hints.drop_last(), typed, strip);
        if extends(hints.last(), typed) {
            rest.push(stripped(hints.last(), strip))
        } else {
            rest
        }
    }
}

/// The completion candidates for a line with the cursor at byte `pos`:
/// the commands that extend the text before the cursor, in order, each
/// with that text stripped.
pub fn completion_candidates(commands: &Vec<CommandHint>, line: &str, pos: usize) -> (r: Vec<
    CommandHint,
>)
    requires
        is_char_boundary(bytes_of(line@), pos as int),
    ensures
        r@.map_values(|h: CommandHint| hint_view(h)) == candidates(
            commands@.map_values(|h: CommandHint| hint_view(h)),
            text_before(line@, pos as int),
            pos,
        ),
{
    let parts = line.split_at(pos);
    proof {
        lemma_split_text(line, parts, pos);
        lemma_split_at_boundary(line@, pos as int);
    }
    let typed = parts.0;
    let ghost views = commands@.map_values(|h: CommandHint| hint_view(h));
    let mut out: Vec<CommandHint> = Vec::new();
    let mut i: usize = 0;
    while i < commands.len()
        invariant
            i <= commands@.len(),
            views == commands@.map_values(|h: CommandHint| hint_view(h)),
            typed@ == text_before(line@, pos as int),
            bytes_of(typed@).len() == pos,
            out@.map_values(|h: CommandHint| hint_view(h)) == candidates(
                views.take(i as int),
                typed@,
                pos,
            ),
        decreases commands@.len() - i,
    {
        assert(views.take(i + 1).drop_last() =~= views.take(i as int));
        assert(views.take(i + 1).last() == hint_view(commands@[i as int]));
        let hint = &commands[i];
        if starts_with(hint.display.as_str(), typed) {
            proof {
                let rest = hint.display@.subrange(typed@.len() as int, hint.display@.len() as int);
                assert(hint.display@ =~= typed@ + rest);
                lemma_prefix_ends_on_boundary(typed@, rest);
            }
            let c = hint.suffix(pos);
            let ghost before = out@;
            out.push(c);
            assert(out@.map_values(|h: CommandHint| hint_view(h)) =~= before.map_values(
                |h: CommandHint| hint_view(h),
            ).push(hint_view(c)));
        }
        i = i + 1;
    }
    assert(views.take(i as int) =~= views);
    out
}

/// Whether a line hint is offered at all: only with the cursor at the end
/// of a line that is not empty.
pub fn wants_hint(line: &str, pos: usize) -> (r: bool)
    ensures
        r == (line@.len() > 0 && pos >= bytes_of(line@).len()),
{
    let n = line.as_bytes().len();
    !line.is_empty() && pos >= n
}

/// The first of `hints` that extends the whole line, with the line's text
/// stripped; none when no hint is wanted at this cursor.
pub fn list_hint(hints: &Vec<CommandHint>, line: &str, pos: usize) -> (r: Option<CommandHint>)
    requires
        pos <= bytes_of(line@).len(),
    ensures
        !(line@.len() > 0 && pos >= bytes_of(line@).len()) ==> r is None,
        (line@.len() > 0 && pos >= bytes_of(line@).len()) ==> {
            let found = candidates(hints@.map_values(|h: CommandHint| hint_view(h)), line@, pos);
            &&& found.len() == 0 ==> r is None
            &&& found.len() > 0 ==> r is Some && hint_view(r->Some_0) == found[0]
        },
{
    if !wants_hint(line, pos) {
        return None;
    }
    let ghost views = hints@.map_values(|h: CommandHint| hint_view(h));
    let mut i: usize = 0;
    while i < hints.len()
        invariant
            i <= hints@.len(),
            views == hints@.map_values(|h: CommandHint| hint_view(h)),
            line@.len() > 0 && pos == bytes_of(line@).len(),
            candidates(views.take(i as int), line@, pos).len() == 0,
        decreases hints@.len() - i,
    {
        assert(views.take(i + 1).drop_last() =~= views.take(i as int));
        assert(views.take(i + 1).last() == hint_view(hints@[i as int]));
        let hint = &hints[i];
        if starts_with(hint.display.as_str(), line) {
            proof {
                let rest = hint.display@.subrange(line@.len() as int, hint.display@.len() as int);
                assert(hint.display@ =~= line@ + rest);
                lemma_prefix_ends_on_boundary(line@, rest);
            }
            let c = hint.suffix(pos);
            proof {
                lemma_candidates_prefix(views, line@, pos, i as int);
            }
            return Some(c);
        }
        i = i + 1;
    }
    assert(views.take(i as int) =~= views);
    None
}

proof fn lemma_candidates_prefix(hints: Seq<(Seq<char>, usize)>, typed: Seq<char>, strip: usize, i: int)
    requires
        0 <= i < hints.len(),
        candidates(hints.take(i), typed, strip).len() == 0,
        extends(hints[i], typed),
    ensures
        candidates(hints, typed, strip).len() > 0,
        candidates(hints, typed, strip)[0] == stripped(hints[i], strip),
    decreases hints.len(),
{
    assert(hints.take(i + 1).drop_last() =~= hints.take(i));
    assert(hints.take(i + 1).last() == hints[i]);
    lemma_candidates_grow(hints, typed, strip, i + 1);
}

proof fn lemma_candidates_grow(hints: Seq<(Seq<char>, usize)>, typed: Seq<char>, strip: usize, n: int)
    requires
        0 < n <= hints.len(),
        candidates(hints.take(n), typed, strip).len() > 0,
    ensures
        candidates(hints, typed, strip).len() > 0,
        candidates(hints, typed, strip)[0] == candidates(hints.take(n), typed, strip)[0],
    decreases hints.len() - n,
{
    if n == hints.len() {
        assert(hints.take(n) =~= hints);
    } else {
        assert(hints.take(n + 1).drop_last() =~= hints.take(n));
        lemma_candidates_grow(hints, typed, strip, n + 1);
    }
}

/// Decides what the Tab key does: it types a tab after whitespace and
/// completes otherwise.
pub struct TabEventHandler;

impl TabEventHandler {
    /// Whether Tab types a literal tab: when the character before the
    /// cursor (at byte `pos` of `line`) is whitespace.
    pub fn inserts_tab(&self, line: &str, pos: usize) -> (r: bool)
        requires
            is_char_boundary(bytes_of(line@), pos as int),
        ensures
            r == (text_before(line@, pos as int).len() > 0 && is_white_space(
                text_before(line@, pos as int).last(),
            )),
    {
        let parts = line.split_at(pos);
        proof {
            lemma_split_text(line, parts, pos);
        }
        match last_char(parts.0) {
            Some(c) => char_is_whitespace(c),
            None => false,
        }
    }
}

} // verus!
