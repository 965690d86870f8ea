//! The text rules of the server: what counts as blank, how names and chat
//! messages are tidied, how letters compare when case does not matter.

use vstd::prelude::*;

verus! {

/// The code points with the Unicode property `White_Space`.
pub open spec fn is_blank(c: char) -> bool {
    let n = c as int;
    ||| 0x09 <= n <= 0x0d
    ||| n == 0x20
    ||| n == 0x85
    ||| n == 0xa0
    ||| n == 0x1680
    ||| 0x2000 <= n <= 0x200a
    ||| n == 0x2028
    ||| n == 0x2029
    ||| n == 0x202f
    ||| n == 0x205f
    ||| n == 0x3000
}

/// Tells whether a character is white space, as `char::is_whitespace` does.
pub fn blank(c: char) -> (r: bool)
    ensures
        r == is_blank(c),
{
    let n: u32 = c as u32;
    (0x09 <= n && n <= 0x0d) || n == 0x20 || n == 0x85 || n == 0xa0 || n == 0x1680 || (0x2000 <= n
        && n <= 0x200a) || n == 0x2028 || n == 0x2029 || n == 0x202f || n == 0x205f || n == 0x3000
}

/// `String::push`: the character is appended to the end of the string.
pub assume_specification[ String::push ](s: &mut String, c: char)
    ensures
        final(s)@ == old(s)@.push(c),
;

/// The characters of a string, in order.
pub fn letters(s: &str) -> (r: Vec<char>)
    ensures
        r@ == s@,
{
    let mut out: Vec<char> = Vec::new();
    for c in it: s.chars()
        invariant
            it.seq() == s@,
            out@ == s@.take(it.index()),
    {
        out.push(c);
    }
    assert(out@ == s@);
    out
}

/// The text of a run of characters.
pub fn spell(chars: &Vec<char>, from: usize, to: usize) -> (r: String)
    requires
        from <= to <= chars@.len(),
    ensures
        r@ == chars@.subrange(from as int, to as int),
{
    let mut out = String::new();
    let mut i: usize = from;
    while i < to
        invariant
            from <= i <= to <= chars@.len(),
            out@ == chars@.subrange(from as int, i as int),
        decreases to - i,
    {
        out.push(chars[i]);
        i += 1;
        assert(out@ == chars@.subrange(from as int, i as int));
    }
    out
}

/// A text without the white space that it starts with.
pub open spec fn trimmed_front(s: Seq<char>) -> Seq<char>
    decreases s.len(),
{
    if s.len() > 0 && is_blank(s.first()) {
        trimmed_front(s.drop_first())
    } else {
        s
    }
}

/// A text without the white space that it ends with.
pub open spec fn trimmed_back(s: Seq<char>) -> Seq<char>
    decreases s.len(),
{
    if s.len() > 0 && is_blank(s.last()) {
        trimmed_back(s.drop_last())
    } else {
        s
    }
}

/// A text without white space at either end.
pub open spec fn trimmed(s: Seq<char>) -> Seq<char> {
    trimmed_back(trimmed_front(s))
}

/// Removes the white space at both ends, as `str::trim` does.
pub fn trim(s: &str) -> (r: String)
    ensures
        r@ == trimmed(s@),
{
    let chars: Vec<char> = letters(s);
    let mut from: usize = 0;
    assert(chars@.skip(0) == chars@);
    while from < chars.len() && blank(chars[from])
        invariant
            from <= chars@.len(),
            trimmed_front(chars@) == trimmed_front(chars@.skip(from as int)),
        decreases chars@.len() - from,
    {
        from += 1;
        assert(chars@.skip(from - 1).drop_first() == chars@.skip(from as int));
    }
    let mut to: usize = chars.len();
    let ghost rest = chars@.skip(from as int);
    assert(rest == chars@.subrange(from as int, to as int));
    while from < to && blank(chars[to - 1])
        invariant
            from <= to <= chars@.len(),
            trimmed_back(rest) == trimmed_back(chars@.subrange(from as int, to as int)),
        decreases to,
    {
        to -= 1;
        assert(chars@.subrange(from as int, to + 1).drop_last() == chars@.subrange(
            from as int,
            to as int,
        ));
    }
    spell(&chars, from, to)
}

/// The words of a text: its longest runs of characters without white space.
pub open spec fn words(s: Seq<char>) -> Seq<Seq<char>>
    decreases s.len(),
{
    if s.len() == 0 {
        seq![]
    } else {
        let before = words(s.drop_last());
        let c = s.last();
        if is_blank(c) {
            before
        } else if s.len() > 1 && !is_blank(s[s.len() - 2]) {
            before.update(before.len() - 1, before.last().push(c))
        } else {
            before.push(seq![c])
        }
    }
}

/// Words set one after the other, with one space between neighbours.
pub open spec fn spaced(ws: Seq<Seq<char>>) -> Seq<char>
    decreases ws.len(),
{
    if ws.len() == 0 {
        seq![]
    } else if ws.len() == 1 {
        ws[0]
    } else {
        spaced(ws.drop_last()).push(' ') + ws.last()
    }
}

/// A text with each stretch of white space between words shrunk to one space,
/// and none at either end.
pub open spec fn squashed(s: Seq<char>) -> Seq<char> {
    spaced(words(s))
}

proof fn lemma_spaced_grow_last(ws: Seq<Seq<char>>, c: char)
    requires
        ws.len() > 0,
    ensures
        spaced(ws.update(ws.len() - 1, ws.last().push(c))) == spaced(ws).push(c),
{
    let grown = ws.update(ws.len() - 1, ws.last().push(c));
    assert(grown.drop_last() == ws.drop_last());
    assert(spaced(grown) == spaced(ws).push(c));
}

proof fn lemma_spaced_new_word(ws: Seq<Seq<char>>, c: char)
    ensures
        ws.len() == 0 ==> spaced(ws.push(seq![c])) == seq![c],
        ws.len() > 0 ==> spaced(ws.push(seq![c])) == spaced(ws).push(' ').push(c),
{
    assert(ws.push(seq![c]).drop_last() == ws);
    if ws.len() > 0 {
        assert(spaced(ws.push(seq![c])) == spaced(ws).push(' ').push(c));
    }
}

/// Shrinks each stretch of white space to one space and drops it at the ends:
/// the pieces of `str::split_whitespace`, joined by spaces.
pub fn squash(s: &str) -> (r: String)
    ensures
        r@ == squashed(s@),
{
    let mut out = String::new();
    let mut in_word: bool = false;
    for c in it: s.chars()
        invariant
            it.seq() == s@,
            out@ == squashed(s@.take(it.index())),
            in_word == (it.index() > 0 && !is_blank(s@[it.index() - 1])),
    {
        let ghost done = s@.take(it.index());
        let ghost next = s@.take(it.index() + 1);
        proof {
            assert(next.drop_last() == done);
            lemma_words_are_words(done);
            lemma_spaced_is_tidy(words(done));
            lemma_spaced_new_word(words(done), c);
            if in_word {
                lemma_spaced_grow_last(words(done), c);
            }
        }
        if blank(c) {
            in_word = false;
        } else {
            if !in_word && !out.as_str().is_empty() {
                out.push(' ');
            }
            out.push(c);
            in_word = true;
        }
        assert(out@ == squashed(next));
    }
    assert(s@.take(s@.len() as int) == s@);
    out
}

/// The longest beginning of a text that has at most `n` characters.
pub open spec fn clipped(s: Seq<char>, n: nat) -> Seq<char> {
    if s.len() <= n {
        s
    } else {
        s.take(n as int)
    }
}

/// Keeps the first `n` characters.
pub fn clip(s: &str, n: usize) -> (r: String)
    ensures
        r@ == clipped(s@, n as nat),
{
    let chars: Vec<char> = letters(s);
    let to: usize = if chars.len() < n { chars.len() } else { n };
    let r = spell(&chars, 0, to);
    assert(r@ == clipped(s@, n as nat));
    r
}

/// A character's code, with `A` to `Z` counted as `a` to `z`.
pub open spec fn folded(c: char) -> int {
    if 'A' <= c <= 'Z' {
        c as int + 32
    } else {
        c as int
    }
}

/// Two texts that differ at most in the case of ASCII letters.
pub open spec fn alike(a: Seq<char>, b: Seq<char>) -> bool {
    &&& a.len() == b.len()
    &&& forall|i: int| 0 <= i < a.len() ==> folded(#[trigger] a[i]) == folded(b[i])
}

fn fold(c: char) -> (r: u32)
    ensures
        r == folded(c),
{
    let n: u32 = c as u32;
    if 65 <= n && n <= 90 {
        n + 32
    } else {
        n
    }
}

/// Compares two texts without regard to the case of ASCII letters, as
/// `str::eq_ignore_ascii_case` does.
pub fn eq_ignore_case(a: &str, b: &str) -> (r: bool)
    ensures
        r == alike(a@, b@),
{
    let x: Vec<char> = letters(a);
    let y: Vec<char> = letters(b);
    if x.len() != y.len() {
        return false;
    }
    let mut i: usize = 0;
    while i < x.len()
        invariant
            x@ == a@,
            y@ == b@,
            x@.len() == y@.len(),
            i <= x@.len(),
            forall|j: int| 0 <= j < i ==> folded(#[trigger] x@[j]) == folded(y@[j]),
        decreases x@.len() - i,
    {
        if fold(x[i]) != fold(y[i]) {
            return false;
        }
        i += 1;
    }
    true
}

/// The password that a client meant: none if the text is blank or the word
/// "none", otherwise the text without white space around it.
pub open spec fn normalized(p: Option<Seq<char>>) -> Option<Seq<char>> {
    match p {
        None => None,
        Some(s) => {
            let t = trimmed(s);
            if t.len() == 0 || alike(t, "none"@) {
                None
            } else {
                Some(t)
            }
        },
    }
}

/// What an optional string holds.
pub open spec fn text_of(o: Option<String>) -> Option<Seq<char>> {
    match o {
        None => None,
        Some(s) => Some(s@),
    }
}

/// Reads a password field: a blank one, or the word "none" in any case, means
/// that there is no password.
pub fn normalize_password(p: Option<String>) -> (r: Option<String>)
    ensures
        text_of(r) == normalized(text_of(p)),
{
    match p {
        None => None,
        Some(s) => {
            let t: String = trim(s.as_str());
            if t.as_str().is_empty() || eq_ignore_case(t.as_str(), "none") {
                None
            } else {
                Some(t)
            }
        },
    }
}

proof fn lemma_trimmed_back(s: Seq<char>)
    ensures
        trimmed_back(s).len() <= s.len(),
        trimmed_back(s) == s.take(trimmed_back(s).len() as int),
        trimmed_back(s).len() > 0 ==> !is_blank(trimmed_back(s).last()),
        s.len() > 0 && !is_blank(s.first()) ==> trimmed_back(s).len() > 0,
    decreases s.len(),
{
    if s.len() > 0 && is_blank(s.last()) {
        let t = s.drop_last();
        lemma_trimmed_back(t);
        if !is_blank(s.first()) {
            assert(s.len() > 1);
            assert(t.first() == s.first());
        }
        let n = trimmed_back(t).len() as int;
        assert(t.take(n) =~= s.take(n));
    } else {
        assert(s.take(s.len() as int) =~= s);
    }
}

proof fn lemma_trimmed_front(s: Seq<char>)
    ensures
        trimmed_front(s).len() > 0 ==> !is_blank(trimmed_front(s).first()),
    decreases s.len(),
{
    if s.len() > 0 && is_blank(s.first()) {
        lemma_trimmed_front(s.drop_first());
    }
}

/// A trimmed text has no white space at either end, and trimming it again
/// changes nothing.
pub proof fn law_trimming_once_is_enough(s: Seq<char>)
    ensures
        trimmed(s).len() > 0 ==> !is_blank(trimmed(s).first()) && !is_blank(trimmed(s).last()),
        trimmed(trimmed(s)) == trimmed(s),
{
    lemma_trimmed_front(s);
    lemma_trimmed_back(trimmed_front(s));
}

/// Tidying a password once is enough.
pub proof fn law_normalizing_once_is_enough(p: Option<Seq<char>>)
    ensures
        normalized(normalized(p)) == normalized(p),
{
    match p {
        Some(s) => {
            law_trimming_once_is_enough(s);
        },
        None => {},
    }
}

/// Whole words: none empty, none with white space in it.
spec fn are_words(ws: Seq<Seq<char>>) -> bool {
    forall|i: int|
        0 <= i < ws.len() ==> (#[trigger] ws[i]).len() > 0 && (forall|j: int|
            0 <= j < ws[i].len() ==> !is_blank(#[trigger] ws[i][j]))
}

proof fn lemma_front_words(ws: Seq<Seq<char>>)
    requires
        are_words(ws),
        ws.len() > 0,
    ensures
        are_words(ws.drop_last()),
{
    let front = ws.drop_last();
    assert forall|i: int| 0 <= i < front.len() implies (#[trigger] front[i]).len() > 0 && (forall|
        j: int,
    |
        0 <= j < front[i].len() ==> !is_blank(#[trigger] front[i][j])) by {
        assert(front[i] == ws[i]);
    }
}

proof fn lemma_words_are_words(s: Seq<char>)
    ensures
        are_words(words(s)),
        s.len() > 0 && !is_blank(s.last()) ==> words(s).len() > 0,
    decreases s.len(),
{
    if s.len() > 0 {
        let before = words(s.drop_last());
        lemma_words_are_words(s.drop_last());
        if s.len() > 1 {
            assert(s.drop_last().last() == s[s.len() - 2]);
        }
        let ws = words(s);
        assert forall|i: int| 0 <= i < ws.len() implies (#[trigger] ws[i]).len() > 0 && (forall|
            j: int,
        |
            0 <= j < ws[i].len() ==> !is_blank(#[trigger] ws[i][j])) by {
            if i < before.len() {
                assert(before[i].len() > 0);
                assert forall|j: int| 0 <= j < ws[i].len() implies !is_blank(
                    #[trigger] ws[i][j],
                ) by {
                    if j < before[i].len() {
                        assert(!is_blank(before[i][j]));
                    }
                }
            }
        }
    }
}

/// A word after a gap is one more word.
proof fn lemma_words_append(a: Seq<char>, w: Seq<char>)
    requires
        a.len() == 0 || is_blank(a.last()),
        w.len() > 0,
        forall|j: int| 0 <= j < w.len() ==> !is_blank(#[trigger] w[j]),
    ensures
        words(a + w) == words(a).push(w),
    decreases w.len(),
{
    let s = a + w;
    let u = w.drop_last();
    assert(s.drop_last() =~= a + u);
    assert(s.last() == w[w.len() - 1]);
    if w.len() == 1 {
        assert(a + u =~= a);
        assert(w =~= seq![s.last()]);
        if s.len() > 1 {
            assert(s[s.len() - 2] == a.last());
        }
    } else {
        assert forall|j: int| 0 <= j < u.len() implies !is_blank(#[trigger] u[j]) by {
            assert(u[j] == w[j]);
        }
        lemma_words_append(a, u);
        assert(s[s.len() - 2] == w[w.len() - 2]);
        assert(u.push(s.last()) =~= w);
        assert(words(s) =~= words(a).push(w));
    }
}

proof fn lemma_words_of_spaced(ws: Seq<Seq<char>>)
    requires
        are_words(ws),
    ensures
        words(spaced(ws)) == ws,
    decreases ws.len(),
{
    if ws.len() == 0 {
        assert(words(spaced(ws)) =~= ws);
    } else if ws.len() == 1 {
        assert(ws[0].len() > 0);
        assert(Seq::<char>::empty() + ws[0] =~= ws[0]);
        lemma_words_append(Seq::empty(), ws[0]);
        assert(words(spaced(ws)) =~= ws);
    } else {
        let front = ws.drop_last();
        lemma_front_words(ws);
        lemma_words_of_spaced(front);
        let gap = spaced(front).push(' ');
        assert(gap.drop_last() =~= spaced(front));
        assert(ws[ws.len() - 1].len() > 0);
        lemma_words_append(gap, ws.last());
        assert(words(spaced(ws)) =~= ws);
    }
}

/// Squashing a text again changes nothing: its words stay the same.
pub proof fn law_squashing_once_is_enough(s: Seq<char>)
    ensures
        words(squashed(s)) == words(s),
        squashed(squashed(s)) == squashed(s),
{
    lemma_words_are_words(s);
    lemma_words_of_spaced(words(s));
}

/// The text does not start with white space, and has none but single spaces.
pub open spec fn is_tidy(t: Seq<char>) -> bool {
    forall|i: int|
        0 <= i < t.len() && is_blank(#[trigger] t[i]) ==> t[i] == ' ' && i > 0 && !is_blank(
            t[i - 1],
        )
}

proof fn lemma_spaced_is_tidy(ws: Seq<Seq<char>>)
    requires
        are_words(ws),
    ensures
        is_tidy(spaced(ws)),
        ws.len() > 0 ==> spaced(ws).len() > 0 && !is_blank(spaced(ws).last()),
    decreases ws.len(),
{
    if ws.len() == 1 {
        assert(ws[0].len() > 0);
        assert(!is_blank(ws[0][ws[0].len() - 1]));
    } else if ws.len() > 1 {
        let front = ws.drop_last();
        lemma_front_words(ws);
        lemma_spaced_is_tidy(front);
        let a = spaced(front);
        let w = ws[ws.len() - 1];
        let t = spaced(ws);
        assert(w.len() > 0);
        assert(!is_blank(w[w.len() - 1]));
        assert(t.last() == w[w.len() - 1]);
        assert forall|i: int| 0 <= i < t.len() && is_blank(#[trigger] t[i]) implies t[i] == ' '
            && i > 0 && !is_blank(t[i - 1]) by {
            if i < a.len() {
                assert(t[i] == a[i]);
            } else if i == a.len() {
                assert(t[i - 1] == a[i - 1]);
            } else {
                assert(t[i] == w[i - a.len() - 1]);
            }
        }
    }
}

/// A squashed text has no white space but single spaces between its words.
pub proof fn law_squashed_text_is_tidy(s: Seq<char>)
    ensures
        is_tidy(squashed(s)),
        squashed(s).len() > 0 ==> !is_blank(squashed(s).last()),
{
    lemma_words_are_words(s);
    lemma_spaced_is_tidy(words(s));
}

proof fn lemma_no_words(s: Seq<char>)
    ensures
        words(s).len() == 0 <==> forall|i: int| 0 <= i < s.len() ==> is_blank(#[trigger] s[i]),
    decreases s.len(),
{
    if s.len() > 0 {
        let t = s.drop_last();
        lemma_no_words(t);
        lemma_words_are_words(t);
        if s.len() > 1 {
            assert(t.last() == s[s.len() - 2]);
        }
        assert(s[s.len() - 1] == s.last());
        assert forall|i: int| 0 <= i < t.len() implies t[i] == #[trigger] s[i] by {}
        if forall|i: int| 0 <= i < s.len() ==> is_blank(#[trigger] s[i]) {
            assert forall|i: int| 0 <= i < t.len() implies is_blank(#[trigger] t[i]) by {
                assert(t[i] == s[i]);
            }
        }
        if words(s).len() == 0 {
            assert(is_blank(s.last()));
            assert forall|i: int| 0 <= i < s.len() implies is_blank(#[trigger] s[i]) by {
                if i < t.len() {
                    assert(is_blank(t[i]));
                }
            }
        }
    }
}

/// Squashing leaves nothing of a text if and only if all of it is white space.
pub proof fn law_only_blank_text_vanishes(s: Seq<char>)
    ensures
        squashed(s).len() == 0 <==> forall|i: int|
            0 <= i < s.len() ==> is_blank(#[trigger] s[i]),
{
    lemma_no_words(s);
    lemma_words_are_words(s);
    lemma_spaced_is_tidy(words(s));
}

/// Trimming takes nothing away but white space, from the two ends: what is left
/// is one run of the text, and all that stood before and after it is blank.
pub proof fn law_trimming_drops_only_blanks(s: Seq<char>) -> (run: (int, int))
    ensures
        0 <= run.0 <= run.1 <= s.len(),
        trimmed(s) == s.subrange(run.0, run.1),
        forall|k: int| 0 <= k < run.0 || run.1 <= k < s.len() ==> is_blank(#[trigger] s[k]),
        run.0 < run.1 ==> !is_blank(s[run.0]) && !is_blank(s[run.1 - 1]),
{
    let i = lemma_front_run(s);
    let front = trimmed_front(s);
    let j = lemma_back_run(front);
    lemma_trimmed_front(s);
    assert(trimmed(s) =~= s.subrange(i, i + j));
    assert forall|k: int| 0 <= k < i || i + j <= k < s.len() implies is_blank(#[trigger] s[k]) by {
        if k >= i + j {
            assert(front[k - i] == s[k]);
        }
    }
    (i, i + j)
}

proof fn lemma_front_run(s: Seq<char>) -> (i: int)
    ensures
        0 <= i <= s.len(),
        trimmed_front(s) == s.skip(i),
        forall|k: int| 0 <= k < i ==> is_blank(#[trigger] s[k]),
    decreases s.len(),
{
    if s.len() > 0 && is_blank(s.first()) {
        let rest = s.drop_first();
        let i = lemma_front_run(rest);
        assert(rest.skip(i) =~= s.skip(i + 1));
        assert forall|k: int| 0 <= k < i + 1 implies is_blank(#[trigger] s[k]) by {
            if k > 0 {
                assert(rest[k - 1] == s[k]);
            }
        }
        i + 1
    } else {
        assert(s.skip(0) =~= s);
        0
    }
}

proof fn lemma_back_run(s: Seq<char>) -> (j: int)
    ensures
        0 <= j <= s.len(),
        trimmed_back(s) == s.take(j),
        forall|k: int| j <= k < s.len() ==> is_blank(#[trigger] s[k]),
        j > 0 ==> !is_blank(s[j - 1]),
    decreases s.len(),
{
    if s.len() > 0 && is_blank(s.last()) {
        let rest = s.drop_last();
        let j = lemma_back_run(rest);
        assert(rest.take(j) =~= s.take(j));
        assert forall|k: int| j <= k < s.len() implies is_blank(#[trigger] s[k]) by {
            if k < rest.len() {
                assert(rest[k] == s[k]);
            }
        }
        j
    } else {
        assert(s.take(s.len() as int) =~= s);
        s.len() as int
    }
}

proof fn lemma_words_split(a: Seq<char>, b: Seq<char>)
    requires
        a.len() == 0 || is_blank(a.last()),
    ensures
        words(a + b) == words(a) + words(b),
    decreases b.len(),
{
    let s = a + b;
    if b.len() == 0 {
        assert(s =~= a);
        assert(words(a) + words(b) =~= words(a));
    } else {
        let rest = b.drop_last();
        lemma_words_split(a, rest);
        assert(s.drop_last() =~= a + rest);
        assert(s.last() == b.last());
        lemma_words_are_words(rest);
        if rest.len() > 0 {
            assert(s[s.len() - 2] == rest.last());
        } else if a.len() > 0 {
            assert(s[s.len() - 2] == a.last());
        }
        assert(words(s) =~= words(a) + words(b));
    }
}

proof fn lemma_spaced_joins(ws: Seq<Seq<char>>, vs: Seq<Seq<char>>)
    requires
        ws.len() > 0,
        vs.len() > 0,
    ensures
        spaced(ws + vs) == spaced(ws).push(' ') + spaced(vs),
    decreases vs.len(),
{
    let all = ws + vs;
    let rest = vs.drop_last();
    assert(all.drop_last() =~= ws + rest);
    assert(all.last() == vs.last());
    if vs.len() == 1 {
        assert(ws + rest =~= ws);
    } else {
        lemma_spaced_joins(ws, rest);
        assert(spaced(all) =~= spaced(ws).push(' ') + spaced(vs));
    }
}

/// Squashing goes piece by piece: what stands before a blank and what stands
/// after it are squashed each for itself, and set one space apart if both say
/// something. A text without white space stays as it is.
pub proof fn law_squashing_goes_piece_by_piece(a: Seq<char>, c: char, b: Seq<char>)
    requires
        is_blank(c),
    ensures
        squashed(a.push(c) + b) == if squashed(a).len() == 0 {
            squashed(b)
        } else if squashed(b).len() == 0 {
            squashed(a)
        } else {
            squashed(a).push(' ') + squashed(b)
        },
        (forall|i: int| 0 <= i < a.len() ==> !is_blank(#[trigger] a[i])) ==> squashed(a) == a,
{
    lemma_words_are_words(a);
    lemma_words_are_words(b);
    lemma_spaced_is_tidy(words(a));
    lemma_spaced_is_tidy(words(b));
    assert(a.push(c).drop_last() =~= a);
    lemma_words_split(a.push(c), b);
    if words(a).len() > 0 && words(b).len() > 0 {
        lemma_spaced_joins(words(a), words(b));
    } else if words(a).len() == 0 {
        assert(words(a) + words(b) =~= words(b));
    } else {
        assert(words(a) + words(b) =~= words(a));
    }
    if forall|i: int| 0 <= i < a.len() ==> !is_blank(#[trigger] a[i]) {
        if a.len() > 0 {
            lemma_words_append(Seq::empty(), a);
            assert(Seq::<char>::empty() + a =~= a);
            assert(words(a) =~= seq![a]);
        } else {
            assert(squashed(a) =~= a);
        }
    }
}

/// Clipping keeps the beginning of a text: all of it if it is short enough,
/// otherwise as many characters as are allowed.
pub proof fn law_clipping_keeps_the_beginning(s: Seq<char>, n: nat)
    ensures
        clipped(s, n).len() == if s.len() < n {
            s.len()
        } else {
            n
        },
        forall|i: int| 0 <= i < clipped(s, n).len() ==> #[trigger] clipped(s, n)[i] == s[i],
{
}

/// Two texts are alike if and only if they are as long as each other and each
/// two characters are the same, or the same ASCII letter in both cases.
pub proof fn law_alike_up_to_ascii_case(a: Seq<char>, b: Seq<char>)
    ensures
        alike(a, b) <==> a.len() == b.len() && forall|i: int|
            0 <= i < a.len() ==> {
                let (x, y) = (#[trigger] a[i] as int, b[i] as int);
                ||| x == y
                ||| 65 <= x <= 90 && y == x + 32
                ||| 65 <= y <= 90 && x == y + 32
            },
{
    if a.len() == b.len() {
        assert forall|i: int| 0 <= i < a.len() implies (folded(#[trigger] a[i]) == folded(b[i]))
            == ({
            let (x, y) = (a[i] as int, b[i] as int);
            ||| x == y
            ||| 65 <= x <= 90 && y == x + 32
            ||| 65 <= y <= 90 && x == y + 32
        }) by {}
    }
}

/// A password field means no password if it is absent, all blank, or the word
/// "none" in any case with blanks around it; otherwise it means its text without
/// the blanks around it.
pub proof fn law_which_passwords_count(s: Seq<char>)
    ensures
        normalized(None) is None,
        normalized(Some(s)) is None <==> trimmed(s).len() == 0 || alike(trimmed(s), "none"@),
        normalized(Some(s)) is Some ==> normalized(Some(s)) == Some(trimmed(s)),
        trimmed(s).len() == 0 <==> forall|i: int|
            0 <= i < s.len() ==> is_blank(#[trigger] s[i]),
{
    let run = law_trimming_drops_only_blanks(s);
    if run.0 < run.1 {
        assert(!is_blank(s[run.0]));
    }
}

} // verus!
