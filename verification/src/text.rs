//! Lines, words and separators: the text layer under the command parser.
//!
//! Everything here is stated over `Seq<char>`, the view of `str` and `String`.

use vstd::prelude::*;
use vstd::string::StrSliceExecFns;
use vstd::string::StringExecFns;
use vstd::string::StringSliceAdditionalSpecFns;
use vstd::utf8::encode_utf8_decode_utf8;

verus! {

/// The characters that separate the words of a line: the code points that
/// carry the Unicode property `White_Space`.
pub open spec fn is_space(c: char) -> bool {
    let n = c as u32;
    ||| 0x09 <= n <= 0x0D
    ||| n == 0x20
    ||| n == 0x85
    ||| n == 0xA0
    ||| n == 0x1680
    ||| 0x2000 <= n <= 0x200A
    ||| n == 0x2028
    ||| n == 0x2029
    ||| n == 0x202F
    ||| n == 0x205F
    ||| n == 0x3000
}

/// A line without a word: empty, or white space throughout.
pub open spec fn is_blank(s: Seq<char>) -> bool {
    forall|i: int| 0 <= i < s.len() ==> is_space(#[trigger] s[i])
}

/// A word is not empty and holds no white space.
pub open spec fn is_word(w: Seq<char>) -> bool {
    w.len() > 0 && forall|i: int| 0 <= i < w.len() ==> !is_space(#[trigger] w[i])
}

/// The views of the strings of a vector, in order.
pub open spec fn views(v: Seq<String>) -> Seq<Seq<char>> {
    Seq::new(v.len(), |i: int| v[i]@)
}

/// How many characters stand before the first one of `s` that `stop` holds
/// of: all of them, where it holds of none.
pub open spec fn span(s: Seq<char>, stop: spec_fn(char) -> bool) -> nat
    decreases s.len(),
{
    if s.len() == 0 || stop(s[0]) {
        0
    } else {
        1 + span(s.skip(1), stop)
    }
}

/// Holds of white space.
pub open spec fn space() -> spec_fn(char) -> bool {
    |c: char| is_space(c)
}

/// Holds of `sep` alone.
pub open spec fn only(sep: char) -> spec_fn(char) -> bool {
    |c: char| c == sep
}

/// How many characters stand before the first white space of `s`.
pub open spec fn word_len(s: Seq<char>) -> nat {
    span(s, space())
}

/// The words of a line: its maximal runs of characters that are not white
/// space, from left to right.
pub open spec fn words(s: Seq<char>) -> Seq<Seq<char>>
    decreases s.len(),
    via words_terminates
{
    if s.len() == 0 {
        Seq::empty()
    } else if is_space(s[0]) {
        words(s.skip(1))
    } else {
        seq![s.take(word_len(s) as int)] + words(s.skip(word_len(s) as int))
    }
}

#[via_fn]
proof fn words_terminates(s: Seq<char>) {
    lemma_span(s, space());
}

/// The pieces of `parts`, written with `sep` between neighbours.
pub open spec fn join_with(parts: Seq<Seq<char>>, sep: char) -> Seq<char>
    decreases parts.len(),
{
    if parts.len() == 0 {
        Seq::empty()
    } else if parts.len() == 1 {
        parts[0]
    } else {
        join_with(parts.drop_last(), sep) + seq![sep] + parts.last()
    }
}

/// The words of `parts`, written with one blank between neighbours.
pub open spec fn join(parts: Seq<Seq<char>>) -> Seq<char> {
    join_with(parts, ' ')
}

/// How many characters stand before the first `sep` of `s`.
pub open spec fn segment_len(s: Seq<char>, sep: char) -> nat {
    span(s, only(sep))
}

/// The pieces of `s` between occurrences of `sep`. There is one piece more
/// than there are separators, and a piece may be empty.
pub open spec fn split(s: Seq<char>, sep: char) -> Seq<Seq<char>>
    decreases s.len(),
    via split_terminates
{
    let n = segment_len(s, sep) as int;
    if n >= s.len() {
        seq![s]
    } else {
        seq![s.take(n)] + split(s.skip(n + 1), sep)
    }
}

#[via_fn]
proof fn split_terminates(s: Seq<char>, sep: char) {
    lemma_span(s, only(sep));
}

/// `span` stops at the first character that `stop` holds of, and not
/// before.
pub proof fn lemma_span(s: Seq<char>, stop: spec_fn(char) -> bool)
    ensures
        span(s, stop) <= s.len(),
        forall|i: int| 0 <= i < span(s, stop) ==> !stop(#[trigger] s[i]),
        span(s, stop) < s.len() ==> stop(s[span(s, stop) as int]),
    decreases s.len(),
{
    if s.len() > 0 && !stop(s[0]) {
        let t = s.skip(1);
        lemma_span(t, stop);
        assert forall|i: int| 0 <= i < span(s, stop) implies !stop(#[trigger] s[i]) by {
            if i > 0 {
                assert(s[i] == t[i - 1]);
            }
        }
        if span(s, stop) < s.len() {
            assert(s[span(s, stop) as int] == t[span(t, stop) as int]);
        }
    }
}

/// `span` passes over `n` leading characters that `stop` does not hold of,
/// and goes no further where the next one ends the run.
pub proof fn lemma_span_from(s: Seq<char>, stop: spec_fn(char) -> bool, n: int)
    requires
        0 <= n <= s.len(),
        forall|i: int| 0 <= i < n ==> !stop(#[trigger] s[i]),
    ensures
        span(s, stop) >= n,
        n == s.len() || stop(s[n]) ==> span(s, stop) == n,
    decreases n,
{
    if n > 0 {
        let t = s.skip(1);
        assert forall|i: int| 0 <= i < n - 1 implies !stop(#[trigger] t[i]) by {
            assert(t[i] == s[i + 1]);
        }
        lemma_span_from(t, stop, n - 1);
    }
}

/// White space at position `i` contributes nothing to the words after it.
proof fn lemma_words_skip_space(s: Seq<char>, i: int)
    requires
        0 <= i < s.len(),
        is_space(s[i]),
    ensures
        words(s.skip(i)) == words(s.skip(i + 1)),
{
    assert(s.skip(i).skip(1) =~= s.skip(i + 1));
}

/// The word that occupies `start..end` is the first word of what follows
/// `start`.
proof fn lemma_words_take_word(s: Seq<char>, start: int, end: int)
    requires
        0 <= start < end <= s.len(),
        forall|i: int| start <= i < end ==> !is_space(#[trigger] s[i]),
        end == s.len() || is_space(s[end]),
    ensures
        words(s.skip(start)) == seq![s.subrange(start, end)] + words(s.skip(end)),
{
    let t = s.skip(start);
    assert forall|i: int| 0 <= i < end - start implies !is_space(#[trigger] t[i]) by {
        assert(t[i] == s[start + i]);
    }
    lemma_span_from(t, space(), end - start);
    assert(t.take(end - start) =~= s.subrange(start, end));
    assert(t.skip(end - start) =~= s.skip(end));
}

/// The piece that occupies `start..end` is the first piece of what follows
/// `start`, and the last one where it ends the text.
proof fn lemma_split_take_segment(s: Seq<char>, sep: char, start: int, end: int)
    requires
        0 <= start <= end <= s.len(),
        forall|i: int| start <= i < end ==> #[trigger] s[i] != sep,
        end == s.len() || s[end] == sep,
    ensures
        end == s.len() ==> split(s.skip(start), sep) == seq![s.subrange(start, end)],
        end < s.len() ==> split(s.skip(start), sep) == seq![s.subrange(start, end)] + split(
            s.skip(end + 1),
            sep,
        ),
{
    let t = s.skip(start);
    assert forall|i: int| 0 <= i < end - start implies #[trigger] t[i] != sep by {
        assert(t[i] == s[start + i]);
    }
    lemma_span_from(t, only(sep), end - start);
    assert(t.take(end - start) =~= s.subrange(start, end));
    if end < s.len() {
        assert(t.skip(end - start + 1) =~= s.skip(end + 1));
    } else {
        assert(t =~= s.subrange(start, end));
    }
}

/// Every word of a line is a word: not empty, and free of white space.
pub proof fn lemma_words_are_words(s: Seq<char>)
    ensures
        forall|k: int| 0 <= k < words(s).len() ==> is_word(#[trigger] words(s)[k]),
    decreases s.len(),
{
    if s.len() == 0 {
        assert(words(s).len() == 0);
    } else if is_space(s[0]) {
        lemma_words_are_words(s.skip(1));
        assert(words(s) == words(s.skip(1)));
    } else {
        let n = word_len(s) as int;
        lemma_span(s, space());
        lemma_words_are_words(s.skip(n));
        let first = s.take(n);
        assert forall|i: int| 0 <= i < first.len() implies !is_space(#[trigger] first[i]) by {
            assert(first[i] == s[i]);
        }
        assert(is_word(first));
        let rest = words(s.skip(n));
        assert(words(s) == seq![first] + rest);
        assert forall|k: int| 0 <= k < words(s).len() implies is_word(#[trigger] words(s)[k]) by {
            if k > 0 {
                assert(words(s)[k] == rest[k - 1]);
                assert(is_word(rest[k - 1]));
            } else {
                assert(words(s)[0] == first);
            }
        }
    }
}

/// A line has no word exactly if it is blank.
pub proof fn lemma_no_words_iff_blank(s: Seq<char>)
    ensures
        words(s).len() == 0 <==> is_blank(s),
    decreases s.len(),
{
    if s.len() == 0 {
    } else if is_space(s[0]) {
        let t = s.skip(1);
        lemma_no_words_iff_blank(t);
        if is_blank(t) {
            assert forall|i: int| 0 <= i < s.len() implies is_space(#[trigger] s[i]) by {
                if i > 0 {
                    assert(s[i] == t[i - 1]);
                }
            }
        }
        if is_blank(s) {
            assert forall|i: int| 0 <= i < t.len() implies is_space(#[trigger] t[i]) by {
                assert(t[i] == s[i + 1]);
            }
        }
    } else {
        assert(!is_space(s[0]));
    }
}

/// White space at the end of a line adds no word.
proof fn lemma_words_push_space(a: Seq<char>, c: char)
    requires
        is_space(c),
    ensures
        words(a.push(c)) == words(a),
    decreases a.len(),
{
    let b = a.push(c);
    if a.len() == 0 {
        assert(b.skip(1) =~= Seq::<char>::empty());
        assert(words(b) == words(b.skip(1)));
    } else if is_space(a[0]) {
        assert(b.skip(1) =~= a.skip(1).push(c));
        lemma_words_push_space(a.skip(1), c);
    } else {
        let n = word_len(a) as int;
        lemma_span(a, space());
        assert forall|i: int| 0 <= i < n implies !is_space(#[trigger] b[i]) by {
            assert(b[i] == a[i]);
        }
        if n < a.len() {
            assert(b[n] == a[n]);
        }
        lemma_span_from(b, space(), n);
        assert(b.take(n) =~= a.take(n));
        assert(b.skip(n) =~= a.skip(n).push(c));
        lemma_words_push_space(a.skip(n), c);
    }
}

/// A word that follows white space, or stands alone, is the last word of
/// the line.
proof fn lemma_words_append_word(a: Seq<char>, w: Seq<char>)
    requires
        is_word(w),
        a.len() == 0 || is_space(a.last()),
    ensures
        words(a + w) == words(a).push(w),
    decreases a.len(),
{
    let b = a + w;
    if a.len() == 0 {
        assert(b =~= w);
        lemma_span_from(w, space(), w.len() as int);
        assert(w.take(w.len() as int) =~= w);
        assert(w.skip(w.len() as int).len() == 0);
        assert(words(w.skip(w.len() as int)).len() == 0);
        assert(words(a).len() == 0);
        assert(words(w) =~= words(a).push(w));
    } else if is_space(a[0]) {
        assert(b.skip(1) =~= a.skip(1) + w);
        if a.len() > 1 {
            assert(a.skip(1).last() == a.last());
        }
        lemma_words_append_word(a.skip(1), w);
    } else {
        let n = word_len(a) as int;
        lemma_span(a, space());
        if n == a.len() {
            assert(!is_space(a[n - 1]));
        }
        assert forall|i: int| 0 <= i < n implies !is_space(#[trigger] b[i]) by {
            assert(b[i] == a[i]);
        }
        assert(b[n] == a[n]);
        lemma_span_from(b, space(), n);
        assert(b.take(n) =~= a.take(n));
        assert(b.skip(n) =~= a.skip(n) + w);
        assert(a.skip(n).last() == a.last());
        lemma_words_append_word(a.skip(n), w);
        assert(seq![a.take(n)] + words(a.skip(n)).push(w) =~= (seq![a.take(n)] + words(
            a.skip(n),
        )).push(w));
    }
}

/// Words that are joined and split again are the same words: `join` writes
/// a line in the one form that has a single blank between its words and
/// none around them.
pub proof fn lemma_words_of_join(ws: Seq<Seq<char>>)
    requires
        forall|k: int| 0 <= k < ws.len() ==> is_word(#[trigger] ws[k]),
    ensures
        words(join(ws)) == ws,
    decreases ws.len(),
{
    if ws.len() == 0 {
        assert(ws =~= Seq::<Seq<char>>::empty());
    } else if ws.len() == 1 {
        lemma_words_append_word(Seq::empty(), ws[0]);
        assert(Seq::<char>::empty() + ws[0] =~= ws[0]);
        assert(ws =~= Seq::<Seq<char>>::empty().push(ws[0]));
    } else {
        let front = ws.drop_last();
        assert forall|k: int| 0 <= k < front.len() implies is_word(#[trigger] front[k]) by {
            assert(front[k] == ws[k]);
        }
        lemma_words_of_join(front);
        let a = join(front).push(' ');
        lemma_words_push_space(join(front), ' ');
        assert(join(ws) =~= a + ws.last());
        assert(is_word(ws[ws.len() - 1]));
        lemma_words_append_word(a, ws.last());
        assert(front.push(ws.last()) =~= ws);
    }
}

/// Joining can be read from the front as well as from the back.
proof fn lemma_join_with_front(first: Seq<char>, rest: Seq<Seq<char>>, sep: char)
    requires
        rest.len() > 0,
    ensures
        join_with(seq![first] + rest, sep) == first + seq![sep] + join_with(rest, sep),
    decreases rest.len(),
{
    let all = seq![first] + rest;
    assert(all.drop_last() =~= seq![first] + rest.drop_last());
    assert(all.last() == rest.last());
    if rest.len() == 1 {
        assert(all.drop_last() =~= seq![first]);
        assert(join_with(all.drop_last(), sep) == first);
        assert(join_with(rest, sep) == rest[0]);
    } else {
        lemma_join_with_front(first, rest.drop_last(), sep);
        assert(join_with(all, sep) =~= first + seq![sep] + (join_with(rest.drop_last(), sep)
            + seq![sep] + rest.last()));
    }
}

/// `split` cuts at every separator and nowhere else: no piece holds one,
/// and the pieces with the separator between them are the text again.
pub proof fn lemma_split(s: Seq<char>, sep: char)
    ensures
        split(s, sep).len() > 0,
        forall|k: int, i: int|
            0 <= k < split(s, sep).len() && 0 <= i < split(s, sep)[k].len() ==> #[trigger] split(
                s,
                sep,
            )[k][i] != sep,
        join_with(split(s, sep), sep) == s,
    decreases s.len(),
{
    let n = segment_len(s, sep) as int;
    let pieces = split(s, sep);
    lemma_span(s, only(sep));
    if n < s.len() {
        let first = s.take(n);
        let rest = s.skip(n + 1);
        let others = split(rest, sep);
        lemma_split(rest, sep);
        assert(pieces == seq![first] + others);
        lemma_join_with_front(first, others, sep);
        assert(first + seq![sep] + rest =~= s);
        assert forall|k: int, i: int|
            0 <= k < pieces.len() && 0 <= i < pieces[k].len() implies #[trigger] pieces[k][i]
            != sep by {
            if k == 0 {
                assert(pieces[0][i] == s[i]);
            } else {
                assert(pieces[k] == others[k - 1]);
                assert(others[k - 1][i] != sep);
            }
        }
    } else {
        assert(pieces == seq![s]);
    }
}

/// Whether `c` is white space.
pub fn char_is_space(c: char) -> (b: bool)
    ensures
        b == is_space(c),
{
    let n: u32 = c as u32;
    (0x09 <= n && n <= 0x0D) || n == 0x20 || n == 0x85 || n == 0xA0 || n == 0x1680 || (0x2000 <= n
        && n <= 0x200A) || n == 0x2028 || n == 0x2029 || n == 0x202F || n == 0x205F || n == 0x3000
}

/// Whether two strings hold the same characters.
pub fn str_eq(a: &str, b: &str) -> (same: bool)
    ensures
        same == (a@ == b@),
{
    let x = a.as_bytes();
    let y = b.as_bytes();
    proof {
        encode_utf8_decode_utf8(a@);
        encode_utf8_decode_utf8(b@);
    }
    if x.len() != y.len() {
        return false;
    }
    let mut i: usize = 0;
    while i < x.len()
        invariant
            i <= x.len(),
            x.len() == y.len(),
            x@ == a.spec_bytes(),
            y@ == b.spec_bytes(),
            forall|j: int| 0 <= j < i ==> x@[j] == y@[j],
        decreases x.len() - i,
    {
        if x[i] != y[i] {
            return false;
        }
        i = i + 1;
    }
    assert(x@ =~= y@);
    true
}

/// Splits a line into its words.
pub fn tokenize(line: &str) -> (tokens: Vec<String>)
    ensures
        views(tokens@) == words(line@),
{
    let n = line.unicode_len();
    let mut tokens: Vec<String> = Vec::new();
    let mut start: usize = 0;
    let mut inside = false;
    let mut i: usize = 0;
    assert(line@.skip(0) =~= line@);
    assert(views(tokens@) =~= Seq::<Seq<char>>::empty());
    for c in it: line.chars()
        invariant
            it.seq() == line@,
            n == line@.len(),
            i == it.index(),
            inside ==> start < i && forall|j: int| start <= j < i ==> !is_space(#[trigger] line@[j]),
            words(line@) == views(tokens@) + words(
                line@.skip(
                    if inside {
                        start as int
                    } else {
                        i as int
                    },
                ),
            ),
    {
        assert(c == line@[i as int]);
        if char_is_space(c) {
            if inside {
                let word = line.substring_char(start, i).to_owned();
                proof {
                    lemma_words_take_word(line@, start as int, i as int);
                    lemma_words_skip_space(line@, i as int);
                    assert(views(tokens@.push(word)) =~= views(tokens@) + seq![word@]);
                }
                tokens.push(word);
                inside = false;
            } else {
                proof {
                    lemma_words_skip_space(line@, i as int);
                }
            }
        } else if !inside {
            start = i;
            inside = true;
        }
        i = i + 1;
    }
    if inside {
        let word = line.substring_char(start, n).to_owned();
        proof {
            lemma_words_take_word(line@, start as int, n as int);
            assert(line@.skip(n as int) =~= Seq::<char>::empty());
            assert(views(tokens@.push(word)) =~= views(tokens@) + seq![word@]);
        }
        tokens.push(word);
    } else {
        assert(line@.skip(n as int) =~= Seq::<char>::empty());
    }
    tokens
}

/// Writes the strings from position `from` on with one blank between
/// neighbours.
pub fn join_from(parts: &Vec<String>, from: usize) -> (text: String)
    ensures
        from <= parts.len() ==> text@ == join(views(parts@).skip(from as int)),
        from > parts.len() ==> text@ == Seq::<char>::empty(),
{
    let mut text = String::new();
    if from >= parts.len() {
        assert(from == parts.len() ==> views(parts@).skip(from as int) =~= Seq::empty());
        return text;
    }
    let ghost all = views(parts@);
    let mut i: usize = from;
    assert(all.subrange(from as int, i as int) =~= Seq::empty());
    while i < parts.len()
        invariant
            from <= i <= parts.len(),
            all == views(parts@),
            text@ == join(all.subrange(from as int, i as int)),
        decreases parts.len() - i,
    {
        let ghost before = all.subrange(from as int, i as int);
        let ghost after = all.subrange(from as int, i + 1);
        assert(after.drop_last() =~= before);
        assert(after.last() == parts@[i as int]@);
        if i > from {
            proof {
                reveal_strlit(" ");
                assert(" "@ =~= seq![' ']);
            }
            text.append(" ");
        }
        text.append(parts[i].as_str());
        assert(text@ =~= join(after));
        i = i + 1;
    }
    assert(all.subrange(from as int, i as int) =~= all.skip(from as int));
    text
}

/// Cuts `text` at every occurrence of `sep`.
pub fn split_at_char(text: &str, sep: char) -> (pieces: Vec<String>)
    ensures
        views(pieces@) == split(text@, sep),
{
    let n = text.unicode_len();
    let mut pieces: Vec<String> = Vec::new();
    let mut start: usize = 0;
    let mut i: usize = 0;
    assert(text@.skip(0) =~= text@);
    assert(views(pieces@) =~= Seq::<Seq<char>>::empty());
    for c in it: text.chars()
        invariant
            it.seq() == text@,
            n == text@.len(),
            i == it.index(),
            start <= i,
            forall|j: int| start <= j < i ==> #[trigger] text@[j] != sep,
            split(text@, sep) == views(pieces@) + split(text@.skip(start as int), sep),
    {
        assert(c == text@[i as int]);
        if c == sep {
            let piece = text.substring_char(start, i).to_owned();
            proof {
                lemma_split_take_segment(text@, sep, start as int, i as int);
                assert(views(pieces@.push(piece)) =~= views(pieces@) + seq![piece@]);
            }
            pieces.push(piece);
            start = i + 1;
        }
        i = i + 1;
    }
    let piece = text.substring_char(start, n).to_owned();
    proof {
        lemma_split_take_segment(text@, sep, start as int, n as int);
        assert(views(pieces@.push(piece)) =~= views(pieces@) + seq![piece@]);
    }
    pieces.push(piece);
    pieces
}

/// Copies the strings from position `from` on.
pub fn strings_from(list: &Vec<String>, from: usize) -> (rest: Vec<String>)
    ensures
        from <= list.len() ==> views(rest@) == views(list@).skip(from as int),
        from > list.len() ==> rest@.len() == 0,
{
    let mut rest: Vec<String> = Vec::new();
    if from > list.len() {
        return rest;
    }
    let mut i: usize = from;
    while i < list.len()
        invariant
            from <= i <= list.len(),
            views(rest@) =~= views(list@).subrange(from as int, i as int),
        decreases list.len() - i,
    {
        let item = list[i].clone();
        assert(views(rest@.push(item)) =~= views(rest@).push(list@[i as int]@));
        rest.push(item);
        i = i + 1;
    }
    assert(views(list@).subrange(from as int, i as int) =~= views(list@).skip(from as int));
    rest
}

} // verus!
