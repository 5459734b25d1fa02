//! Characters, whitespace and the plain-text shapes that pages are reduced to.
use vstd::prelude::*;
use vstd::string::StringExecFns;

verus! {

/// The Unicode `White_Space` property, the notion of whitespace behind
/// `char::is_whitespace`, `str::trim` and `str::split_whitespace`.
pub open spec fn is_space(c: char) -> bool {
    let n = c as u32;
    ||| 0x09 <= n <= 0x0D
    ||| n == 0x20
    ||| n == 0x85
    ||| n == 0xA0
    ||| n == 0x1680
    ||| 0x2000 <= n <= 0x200A
    ||| n == 0x2028
    ||| n == 0x2029
    ||| n == 0x202F
    ||| n == 0x205F
    ||| n == 0x3000
}

/// `parts` in order, with `sep` between each two neighbours.
pub open spec fn join(parts: Seq<Seq<char>>, sep: Seq<char>) -> Seq<char>
    decreases parts.len(),
{
    if parts.len() == 0 {
        seq![]
    } else if parts.len() == 1 {
        parts[0]
    } else {
        join(parts.drop_last(), sep) + sep + parts.last()
    }
}

/// `parts` run together, as collecting string pieces into one `String` does.
pub open spec fn concat(parts: Seq<Seq<char>>) -> Seq<char> {
    join(parts, seq![])
}

/// The length of the run of non-whitespace characters that `s` starts with.
pub open spec fn word_len(s: Seq<char>) -> nat
    decreases s.len(),
{
    if s.len() == 0 || is_space(s[0]) {
        0
    } else {
        1 + word_len(s.drop_first())
    }
}

/// The words of `s`: its maximal runs of non-whitespace characters, in order
/// (what `str::split_whitespace` yields).
pub open spec fn words(s: Seq<char>) -> Seq<Seq<char>>
    decreases s.len(),
{
    if s.len() == 0 {
        seq![]
    } else if is_space(s[0]) {
        words(s.drop_first())
    } else {
        let n = word_len(s);
        proof {
            lemma_word_len_facts(s);
        }
        seq![s.take(n as int)] + words(s.skip(n as int))
    }
}

/// The words of `s` separated by single spaces: every run of whitespace
/// becomes one space, and none is left at either end.
pub open spec fn collapse_whitespace(s: Seq<char>) -> Seq<char> {
    join(words(s), seq![' '])
}

/// `s` without its leading whitespace.
pub open spec fn trim_start(s: Seq<char>) -> Seq<char>
    decreases s.len(),
{
    if s.len() > 0 && is_space(s[0]) {
        trim_start(s.drop_first())
    } else {
        s
    }
}

/// `s` without its trailing whitespace.
pub open spec fn trim_end(s: Seq<char>) -> Seq<char>
    decreases s.len(),
{
    if s.len() > 0 && is_space(s.last()) {
        trim_end(s.drop_last())
    } else {
        s
    }
}

/// `s` without leading or trailing whitespace (what `str::trim` gives).
pub open spec fn trim(s: Seq<char>) -> Seq<char> {
    trim_end(trim_start(s))
}

/// A word: at least one character, none of them whitespace.
pub open spec fn is_word(w: Seq<char>) -> bool {
    w.len() > 0 && forall|i: int| 0 <= i < w.len() ==> !is_space(#[trigger] w[i])
}

/// No whitespace at either end, and every whitespace character is a single
/// `' '` between two characters that are not whitespace.
pub open spec fn is_collapsed(t: Seq<char>) -> bool {
    forall|i: int|
        0 <= i < t.len() && is_space(#[trigger] t[i]) ==> {
            &&& t[i] == ' '
            &&& 0 < i
            &&& i + 1 < t.len()
            &&& !is_space(t[i - 1])
            &&& !is_space(t[i + 1])
        }
}

pub proof fn lemma_word_len_facts(s: Seq<char>)
    ensures
        word_len(s) <= s.len(),
        s.len() > 0 && !is_space(s[0]) ==> word_len(s) >= 1,
        forall|m: int| 0 <= m < word_len(s) ==> !is_space(#[trigger] s[m]),
        word_len(s) < s.len() ==> is_space(s[word_len(s) as int]),
    decreases s.len(),
{
    if s.len() > 0 && !is_space(s[0]) {
        let t = s.drop_first();
        lemma_word_len_facts(t);
        assert forall|m: int| 0 <= m < word_len(s) implies !is_space(#[trigger] s[m]) by {
            if m > 0 {
                assert(s[m] == t[m - 1]);
            }
        }
        if word_len(s) < s.len() {
            assert(s[word_len(s) as int] == t[word_len(t) as int]);
        }
    }
}

proof fn lemma_word_len_exact(t: Seq<char>, k: int)
    requires
        0 <= k <= t.len(),
        forall|m: int| 0 <= m < k ==> !is_space(#[trigger] t[m]),
        k == t.len() || is_space(t[k]),
    ensures
        word_len(t) == k,
    decreases k,
{
    if k > 0 {
        let u = t.drop_first();
        assert forall|m: int| 0 <= m < k - 1 implies !is_space(#[trigger] u[m]) by {
            assert(u[m] == t[m + 1]);
        }
        if k < t.len() {
            assert(u[k - 1] == t[k]);
        }
        lemma_word_len_exact(u, k - 1);
        assert(!is_space(t[0]));
    }
}

/// Every element of `words(s)` is a word.
pub proof fn lemma_words_are_words(s: Seq<char>)
    ensures
        forall|i: int| 0 <= i < words(s).len() ==> is_word(#[trigger] words(s)[i]),
    decreases s.len(),
{
    if s.len() == 0 {
    } else if is_space(s[0]) {
        lemma_words_are_words(s.drop_first());
        assert(words(s) == words(s.drop_first()));
    } else {
        let n = word_len(s);
        lemma_word_len_facts(s);
        lemma_words_are_words(s.skip(n as int));
        assert(forall|i: int| 0 <= i < words(s.skip(n as int)).len() ==> is_word(#[trigger] words(s.skip(n as int))[i]));
        let w = s.take(n as int);
        assert(is_word(w)) by {
            assert forall|i: int| 0 <= i < w.len() implies !is_space(#[trigger] w[i]) by {
                assert(w[i] == s[i]);
            }
        }
        let ws = words(s);
        assert(ws == seq![w] + words(s.skip(n as int)));
        assert forall|i: int| 0 <= i < ws.len() implies is_word(#[trigger] ws[i]) by {
            if i == 0 {
                assert(ws[0] == w);
            } else {
                assert(ws[i] == words(s.skip(n as int))[i - 1]);
            }
        }
    }
}

/// Whitespace between two texts only separates their words.
proof fn lemma_words_split(a: Seq<char>, b: Seq<char>)
    ensures
        words(a + seq![' '] + b) == words(a) + words(b),
    decreases a.len(),
{
    let t = a + seq![' '] + b;
    if a.len() == 0 {
        assert(t.drop_first() =~= b);
        assert(words(a) =~= Seq::<Seq<char>>::empty());
        assert(words(t) =~= words(a) + words(b));
    } else if is_space(a[0]) {
        assert(t.drop_first() =~= a.drop_first() + seq![' '] + b);
        lemma_words_split(a.drop_first(), b);
    } else {
        let n = word_len(a);
        lemma_word_len_facts(a);
        assert forall|m: int| 0 <= m < n implies !is_space(#[trigger] t[m]) by {
            assert(t[m] == a[m]);
        }
        if n < a.len() {
            assert(t[n as int] == a[n as int]);
        } else {
            assert(t[n as int] == ' ');
        }
        lemma_word_len_exact(t, n as int);
        assert(t.take(n as int) =~= a.take(n as int));
        assert(t.skip(n as int) =~= a.skip(n as int) + seq![' '] + b);
        lemma_words_split(a.skip(n as int), b);
        assert(words(t) =~= words(a) + words(b));
    }
}

proof fn lemma_words_of_word(w: Seq<char>)
    requires
        is_word(w),
    ensures
        words(w) == seq![w],
{
    lemma_word_len_exact(w, w.len() as int);
    assert(w.take(w.len() as int) =~= w);
    assert(words(w.skip(w.len() as int)) =~= Seq::<Seq<char>>::empty());
    assert(words(w) =~= seq![w]);
}

/// Words joined by single spaces split back into the same words, and the
/// joined text is collapsed.
pub proof fn lemma_join_words(ws: Seq<Seq<char>>)
    requires
        forall|i: int| 0 <= i < ws.len() ==> is_word(#[trigger] ws[i]),
    ensures
        words(join(ws, seq![' '])) == ws,
        is_collapsed(join(ws, seq![' '])),
        ws.len() > 0 ==> join(ws, seq![' ']).len() > 0,
    decreases ws.len(),
{
    let t = join(ws, seq![' ']);
    if ws.len() == 0 {
        assert(words(t) =~= ws);
    } else if ws.len() == 1 {
        lemma_words_of_word(ws[0]);
        assert(words(t) =~= ws);
        assert(is_word(ws[0]));
    } else {
        let init = ws.drop_last();
        let w = ws.last();
        assert forall|i: int| 0 <= i < init.len() implies is_word(#[trigger] init[i]) by {
            assert(init[i] == ws[i]);
        }
        lemma_join_words(init);
        let p = join(init, seq![' ']);
        assert(is_word(ws[ws.len() - 1]));
        lemma_words_of_word(w);
        lemma_words_split(p, w);
        assert(t == p + seq![' '] + w);
        assert(words(t) =~= ws);
        assert forall|i: int| 0 <= i < t.len() && is_space(#[trigger] t[i]) implies {
            &&& t[i] == ' '
            &&& 0 < i
            &&& i + 1 < t.len()
            &&& !is_space(t[i - 1])
            &&& !is_space(t[i + 1])
        } by {
            if i < p.len() {
                assert(t[i] == p[i]);
                assert(t[i + 1] == p[i + 1]);
                if i > 0 {
                    assert(t[i - 1] == p[i - 1]);
                }
            } else if i == p.len() {
                assert(t[i - 1] == p[p.len() - 1]);
                assert(t[i + 1] == w[0]);
            } else {
                assert(t[i] == w[i - p.len() - 1]);
            }
        }
    }
}

/// What collapsing keeps: the words, in order.
pub proof fn lemma_collapse_keeps_words(s: Seq<char>)
    ensures
        words(collapse_whitespace(s)) == words(s),
        is_collapsed(collapse_whitespace(s)),
{
    lemma_words_are_words(s);
    lemma_join_words(words(s));
}

/// Collapsing a collapsed text changes nothing.
pub proof fn lemma_collapse_idempotent(s: Seq<char>)
    ensures
        collapse_whitespace(collapse_whitespace(s)) == collapse_whitespace(s),
{
    lemma_collapse_keeps_words(s);
}

/// Whether `c` is whitespace in the sense of `is_space`.
pub fn is_whitespace_char(c: char) -> (b: bool)
    ensures
        b == is_space(c),
{
    let n = c as u32;
    (0x09 <= n && n <= 0x0D) || n == 0x20 || n == 0x85 || n == 0xA0 || n == 0x1680 || (0x2000
        <= n && n <= 0x200A) || n == 0x2028 || n == 0x2029 || n == 0x202F || n == 0x205F || n
        == 0x3000
}

/// Appends `c` to `s` (`String::push`, which appends the given char to the
/// end of the string).
#[verifier::external_body]
pub(crate) fn push_char(s: &mut String, c: char)
    ensures
        final(s)@ == old(s)@.push(c),
{
    s.push(c)
}

/// The characters of `s`, in order.
pub fn chars_of(s: &str) -> (v: Vec<char>)
    ensures
        v@ == s@,
{
    let mut v: Vec<char> = Vec::new();
    broadcast use vstd::string::group_string_axioms;

    for c in it: s.chars()
        invariant
            it.seq() == s@,
            v@ == s@.take(it.index() as int),
        ensures
            v@ == s@,
    {
        v.push(c);
    }
    v
}

/// The string made of the characters `v[from..to]`.
pub fn string_from_chars(v: &Vec<char>, from: usize, to: usize) -> (s: String)
    requires
        from <= to <= v.len(),
    ensures
        s@ == v@.subrange(from as int, to as int),
{
    let mut s = String::new();
    let mut i = from;
    while i < to
        invariant
            from <= i <= to <= v.len(),
            s@ == v@.subrange(from as int, i as int),
        decreases to - i,
    {
        push_char(&mut s, v[i]);
        assert(v@.subrange(from as int, i + 1) =~= v@.subrange(from as int, i as int).push(v@[i as int]));
        i += 1;
    }
    s
}

/// `parts` joined with `sep` between neighbours.
pub fn join_strings(parts: &Vec<String>, sep: &str) -> (r: String)
    ensures
        r@ == join(parts.deep_view(), sep@),
{
    let mut r = String::new();
    let mut i: usize = 0;
    let ghost all = parts.deep_view();
    while i < parts.len()
        invariant
            i <= parts.len(),
            all == parts.deep_view(),
            all.len() == parts.len(),
            r@ == join(all.take(i as int), sep@),
        decreases parts.len() - i,
    {
        assert(all[i as int] == parts[i as int]@);
        if i > 0 {
            r.append(sep);
        }
        r.append(parts[i].as_str());
        assert(all.take(i + 1).drop_last() =~= all.take(i as int));
        i += 1;
    }
    assert(all.take(parts.len() as int) =~= all);
    r
}

/// `s` with every run of whitespace turned into one space and none left at
/// either end (the words of `s` joined by single spaces).
pub fn collapse_whitespace_str(s: &str) -> (r: String)
    ensures
        r@ == collapse_whitespace(s@),
{
    let v = chars_of(s);
    let n = v.len();
    let mut out = String::new();
    let ghost mut done: Seq<Seq<char>> = seq![];
    let mut i: usize = 0;
    let mut first = true;
    assert(v@.skip(0) =~= v@);
    while i < n
        invariant
            i <= n == v.len(),
            first == (done.len() == 0),
            v@ == s@,
            words(v@) == done + words(v@.skip(i as int)),
            out@ == join(done, seq![' ']),
        decreases n - i,
    {
        if is_whitespace_char(v[i]) {
            assert(v@.skip(i as int).drop_first() =~= v@.skip(i + 1));
            i += 1;
        } else {
            let start = i;
            while i < n && !is_whitespace_char(v[i])
                invariant
                    start <= i <= n == v.len(),
                    forall|m: int| start <= m < i ==> !is_space(#[trigger] v@[m]),
                decreases n - i,
            {
                i += 1;
            }
            let ghost t = v@.skip(start as int);
            proof {
                assert forall|m: int| 0 <= m < i - start implies !is_space(#[trigger] t[m]) by {
                    assert(t[m] == v@[start + m]);
                }
                if i < n {
                    assert(t[i - start] == v@[i as int]);
                }
                lemma_word_len_exact(t, i - start);
                assert(t.take(i - start) =~= v@.subrange(start as int, i as int));
                assert(t.skip(i - start) =~= v@.skip(i as int));
            }
            let word = string_from_chars(&v, start, i);
            if !first {
                out.append(" ");
            }
            first = false;
            out.append(word.as_str());
            proof {
                reveal_strlit(" ");
                let w = v@.subrange(start as int, i as int);
                assert(done.push(w).drop_last() =~= done);
                done = done.push(w);
                assert(words(v@) =~= done + words(v@.skip(i as int)));
            }
        }
    }
    proof {
        assert(v@.skip(n as int) =~= Seq::<char>::empty());
        assert(done =~= words(v@));
    }
    out
}

/// `s` without leading or trailing whitespace.
pub fn trim_str(s: &str) -> (r: String)
    ensures
        r@ == trim(s@),
{
    let v = chars_of(s);
    let n = v.len();
    let mut start: usize = 0;
    assert(v@.skip(0) =~= v@);
    while start < n && is_whitespace_char(v[start])
        invariant
            start <= n == v.len(),
            trim_start(v@) == trim_start(v@.skip(start as int)),
        decreases n - start,
    {
        assert(v@.skip(start as int).drop_first() =~= v@.skip(start + 1));
        start += 1;
    }
    let ghost rest = v@.skip(start as int);
    assert(trim_start(v@) == rest);
    let mut end: usize = n;
    assert(rest =~= v@.subrange(start as int, n as int));
    while end > start && is_whitespace_char(v[end - 1])
        invariant
            start <= end <= n == v.len(),
            trim_end(rest) == trim_end(v@.subrange(start as int, end as int)),
        decreases end,
    {
        assert(v@.subrange(start as int, end as int).drop_last() =~= v@.subrange(
            start as int,
            end - 1,
        ));
        end -= 1;
    }
    string_from_chars(&v, start, end)
}

/// Trimming leaves no whitespace at either end.
pub proof fn lemma_trim_ends(s: Seq<char>)
    ensures
        trim(s).len() > 0 ==> !is_space(trim(s)[0]) && !is_space(trim(s).last()),
{
    lemma_trim_start_ends(s);
    lemma_trim_end_keeps_start(trim_start(s));
}

proof fn lemma_trim_start_ends(s: Seq<char>)
    ensures
        trim_start(s).len() > 0 ==> !is_space(trim_start(s)[0]),
    decreases s.len(),
{
    if s.len() > 0 && is_space(s[0]) {
        lemma_trim_start_ends(s.drop_first());
    }
}

proof fn lemma_trim_end_keeps_start(s: Seq<char>)
    ensures
        trim_end(s).len() <= s.len(),
        forall|i: int| 0 <= i < trim_end(s).len() ==> trim_end(s)[i] == s[i],
        trim_end(s).len() > 0 ==> !is_space(trim_end(s).last()),
    decreases s.len(),
{
    if s.len() > 0 && is_space(s.last()) {
        let u = s.drop_last();
        lemma_trim_end_keeps_start(u);
        assert forall|i: int| 0 <= i < trim_end(s).len() implies trim_end(s)[i] == s[i] by {
            assert(trim_end(s)[i] == u[i]);
        }
    }
}

/// The words of each of `parts`.
pub open spec fn words_of_each(parts: Seq<Seq<char>>) -> Seq<Seq<Seq<char>>> {
    parts.map_values(|p: Seq<char>| words(p))
}

/// Joining texts with spaces keeps exactly their words: the words of the
/// joined text are the words of the first text, then those of the second,
/// and so on.
pub proof fn lemma_words_of_join(parts: Seq<Seq<char>>)
    ensures
        words(join(parts, seq![' '])) == words_of_each(parts).flatten(),
    decreases parts.len(),
{
    let ws = words_of_each(parts);
    if parts.len() == 0 {
        assert(words(join(parts, seq![' '])) =~= Seq::<Seq<char>>::empty());
        assert(ws.flatten() =~= Seq::<Seq<char>>::empty());
    } else if parts.len() == 1 {
        assert(ws.drop_first().flatten() =~= Seq::<Seq<char>>::empty());
        assert(ws.flatten() =~= words(parts[0]));
    } else {
        let init = parts.drop_last();
        lemma_words_of_join(init);
        lemma_words_split(join(init, seq![' ']), parts.last());
        assert(ws =~= words_of_each(init).push(words(parts.last())));
        words_of_each(init).lemma_flatten_push(words(parts.last()));
    }
}

/// Running texts together is flattening them.
pub proof fn lemma_concat_is_flatten(parts: Seq<Seq<char>>)
    ensures
        concat(parts) == parts.flatten(),
    decreases parts.len(),
{
    if parts.len() == 0 {
    } else if parts.len() == 1 {
        assert(parts.drop_first().flatten() =~= Seq::<char>::empty());
        assert(parts.flatten() =~= parts[0]);
    } else {
        let init = parts.drop_last();
        lemma_concat_is_flatten(init);
        assert(parts =~= init.push(parts.last()));
        init.lemma_flatten_push(parts.last());
        assert(concat(parts) =~= init.flatten() + parts.last());
    }
}

/// Whether a character is not whitespace.
pub open spec fn not_space() -> spec_fn(char) -> bool {
    |c: char| !is_space(c)
}

proof fn lemma_filter_keeps_non_space(t: Seq<char>)
    requires
        forall|i: int| 0 <= i < t.len() ==> !is_space(#[trigger] t[i]),
    ensures
        t.filter(not_space()) == t,
    decreases t.len(),
{
    reveal(Seq::filter);
    if t.len() > 0 {
        lemma_filter_keeps_non_space(t.drop_last());
        assert(t.drop_last().push(t.last()) =~= t);
    }
}

/// The words of a text hold all its characters that are not whitespace, in
/// order, and no others.
pub proof fn lemma_words_keep_every_other_char(s: Seq<char>)
    ensures
        words(s).flatten() == s.filter(not_space()),
    decreases s.len(),
{
    if s.len() == 0 {
        reveal(Seq::filter);
    } else if is_space(s[0]) {
        lemma_words_keep_every_other_char(s.drop_first());
        assert(s =~= seq![s[0]] + s.drop_first());
        s.drop_first().lemma_filter_prepend(s[0], not_space());
        assert(s.filter(not_space()) =~= s.drop_first().filter(not_space()));
    } else {
        let n = word_len(s);
        lemma_word_len_facts(s);
        let w = s.take(n as int);
        let rest = s.skip(n as int);
        lemma_words_keep_every_other_char(rest);
        assert(s =~= w + rest);
        Seq::filter_distributes_over_add(w, rest, not_space());
        assert forall|i: int| 0 <= i < w.len() implies !is_space(#[trigger] w[i]) by {
            assert(w[i] == s[i]);
        }
        lemma_filter_keeps_non_space(w);
        let ws = words(s);
        assert(ws == seq![w] + words(rest));
        assert(ws.first() == w);
        assert(ws.drop_first() =~= words(rest));
    }
}

proof fn lemma_trim_start_is_suffix(s: Seq<char>) -> (i: int)
    ensures
        0 <= i <= s.len(),
        trim_start(s) == s.skip(i),
        forall|k: int| 0 <= k < i ==> is_space(#[trigger] s[k]),
    decreases s.len(),
{
    if s.len() > 0 && is_space(s[0]) {
        let j = lemma_trim_start_is_suffix(s.drop_first());
        assert(s.drop_first().skip(j) =~= s.skip(j + 1));
        assert forall|k: int| 0 <= k < j + 1 implies is_space(#[trigger] s[k]) by {
            if k > 0 {
                assert(s[k] == s.drop_first()[k - 1]);
            }
        }
        j + 1
    } else {
        assert(s.skip(0) =~= s);
        0
    }
}

proof fn lemma_trim_end_is_prefix(s: Seq<char>) -> (j: int)
    ensures
        0 <= j <= s.len(),
        trim_end(s) == s.take(j),
        forall|k: int| j <= k < s.len() ==> is_space(#[trigger] s[k]),
    decreases s.len(),
{
    if s.len() > 0 && is_space(s.last()) {
        let j = lemma_trim_end_is_prefix(s.drop_last());
        assert(s.drop_last().take(j) =~= s.take(j));
        assert forall|k: int| j <= k < s.len() implies is_space(#[trigger] s[k]) by {
            if k < s.len() - 1 {
                assert(s[k] == s.drop_last()[k]);
            }
        }
        j
    } else {
        assert(s.take(s.len() as int) =~= s);
        s.len() as int
    }
}

/// Trimming removes only whitespace, and only at the two ends: the trimmed
/// text is a contiguous part of the text with nothing but whitespace before
/// and after it.
pub proof fn lemma_trim_removes_only_edges(s: Seq<char>)
    ensures
        exists|i: int, j: int|
            0 <= i <= j <= s.len() && trim(s) == s.subrange(i, j) && (forall|k: int|
                0 <= k < i ==> is_space(#[trigger] s[k])) && (forall|k: int|
                j <= k < s.len() ==> is_space(#[trigger] s[k])),
{
    let i = lemma_trim_start_is_suffix(s);
    let t = s.skip(i);
    let j = lemma_trim_end_is_prefix(t);
    assert(t.take(j) =~= s.subrange(i, i + j));
    assert forall|k: int| i + j <= k < s.len() implies is_space(#[trigger] s[k]) by {
        assert(s[k] == t[k - i]);
    }
    assert(trim(s) == s.subrange(i, i + j));
}

} // verus!
