//! Character-level helpers of the parser: lines, words and their models.
use vstd::prelude::*;

verus! {

/// The characters that separate words: ASCII whitespace.
pub open spec fn is_blank(c: char) -> bool {
    c == ' ' || c == '\t' || c == '\n' || c == '\u{c}' || c == '\r'
}

/// The lines of `s`, split at each `'\n'`; the last line may be empty.
pub open spec fn lines(s: Seq<char>) -> Seq<Seq<char>>
    decreases s.len(),
{
    if s.len() == 0 {
        seq![Seq::empty()]
    } else {
        let ls = lines(s.drop_last());
        if s.last() == '\n' {
            ls.push(Seq::empty())
        } else {
            ls.update(ls.len() - 1, ls.last().push(s.last()))
        }
    }
}

/// The maximal runs of non-blank characters of `s`, in order.
pub open spec fn words(s: Seq<char>) -> Seq<Seq<char>>
    decreases s.len(),
{
    if s.len() == 0 {
        Seq::empty()
    } else {
        let ws = words(s.drop_last());
        let c = s.last();
        if is_blank(c) {
            ws
        } else if s.len() >= 2 && !is_blank(s[s.len() - 2]) {
            ws.update(ws.len() - 1, ws.last().push(c))
        } else {
            ws.push(seq![c])
        }
    }
}

/// A text ending in a non-blank character has at least one word.
pub proof fn lemma_words_nonempty(s: Seq<char>)
    requires
        s.len() > 0,
        !is_blank(s.last()),
    ensures
        words(s).len() > 0,
    decreases s.len(),
{
    if s.len() >= 2 && !is_blank(s[s.len() - 2]) {
        lemma_words_nonempty(s.drop_last());
    }
}

/// A non-empty run of non-blank characters is one word.
pub proof fn lemma_words_single(w: Seq<char>)
    requires
        w.len() > 0,
        forall|i: int| 0 <= i < w.len() ==> !is_blank(#[trigger] w[i]),
    ensures
        words(w) == seq![w],
    decreases w.len(),
{
    assert(!is_blank(w[w.len() - 1]));
    if w.len() == 1 {
        assert(w.drop_last() =~= Seq::<char>::empty());
        assert(words(w.drop_last()) == Seq::<Seq<char>>::empty());
        assert(seq![w.last()] =~= w);
        assert(Seq::<Seq<char>>::empty().push(seq![w.last()]) =~= seq![w]);
    } else {
        lemma_words_single(w.drop_last());
        assert(!is_blank(w[w.len() - 2]));
        assert(w.drop_last().push(w.last()) =~= w);
        assert(seq![w.drop_last()].update(0, w) =~= seq![w]);
    }
}

/// The words on either side of a blank character are kept apart.
pub proof fn lemma_words_split(x: Seq<char>, b: char, y: Seq<char>)
    requires
        is_blank(b),
    ensures
        words(x + seq![b] + y) == words(x) + words(y),
    decreases y.len(),
{
    let z = x + seq![b] + y;
    if y.len() == 0 {
        assert(z.drop_last() =~= x);
        assert(words(x) + words(y) =~= words(x));
    } else {
        let y1 = y.drop_last();
        let c = y.last();
        assert(z.drop_last() =~= x + seq![b] + y1);
        lemma_words_split(x, b, y1);
        let a = words(x);
        let w1 = words(y1);
        if is_blank(c) {
        } else if y.len() >= 2 && !is_blank(y[y.len() - 2]) {
            assert(z[z.len() - 2] == y[y.len() - 2]);
            lemma_words_nonempty(y1);
            assert((a + w1).update((a + w1).len() - 1, (a + w1).last().push(c)) =~= a + w1.update(
                w1.len() - 1,
                w1.last().push(c),
            ));
        } else {
            if y.len() >= 2 {
                assert(z[z.len() - 2] == y[y.len() - 2]);
            } else {
                assert(z[z.len() - 2] == b);
            }
            assert((a + w1).push(seq![c]) =~= a + w1.push(seq![c]));
        }
    }
}

/// A text has at least one line.
pub proof fn lemma_lines_nonempty(s: Seq<char>)
    ensures
        lines(s).len() > 0,
    decreases s.len(),
{
    if s.len() > 0 {
        lemma_lines_nonempty(s.drop_last());
    }
}

/// A text without a line break is one line.
pub proof fn lemma_lines_single(x: Seq<char>)
    requires
        forall|i: int| 0 <= i < x.len() ==> #[trigger] x[i] != '\n',
    ensures
        lines(x) == seq![x],
    decreases x.len(),
{
    if x.len() == 0 {
        assert(x =~= Seq::<char>::empty());
    } else {
        lemma_lines_single(x.drop_last());
        assert(x.drop_last().push(x.last()) =~= x);
    }
}

/// A line break ends the line before it.
pub proof fn lemma_lines_split(x: Seq<char>, y: Seq<char>)
    requires
        forall|i: int| 0 <= i < x.len() ==> #[trigger] x[i] != '\n',
    ensures
        lines(x + seq!['\n'] + y) == seq![x] + lines(y),
    decreases y.len(),
{
    let z = x + seq!['\n'] + y;
    if y.len() == 0 {
        assert(z.drop_last() =~= x);
        lemma_lines_single(x);
        assert(seq![x] + lines(y) =~= seq![x].push(Seq::empty()));
    } else {
        let y1 = y.drop_last();
        assert(z.drop_last() =~= x + seq!['\n'] + y1);
        lemma_lines_split(x, y1);
        lemma_lines_nonempty(y1);
        let l1 = lines(y1);
        let c = y.last();
        if c == '\n' {
            assert((seq![x] + l1).push(Seq::empty()) =~= seq![x] + l1.push(Seq::empty()));
        } else {
            assert((seq![x] + l1).update((seq![x] + l1).len() - 1, (seq![x] + l1).last().push(c))
                =~= seq![x] + l1.update(l1.len() - 1, l1.last().push(c)));
        }
    }
}

/// The models of a sequence of strings.
pub open spec fn string_models(ts: Seq<String>) -> Seq<Seq<char>> {
    ts.map_values(|t: String| t@)
}

/// The models of a sequence of character vectors.
pub open spec fn char_vec_models(ls: Seq<Vec<char>>) -> Seq<Seq<char>> {
    ls.map_values(|l: Vec<char>| l@)
}

/// Relies on std's `FromIterator<char>` for `String`: the string holds the
/// given characters in order.
#[verifier::external_body]
fn text_of(cs: &Vec<char>) -> (r: String)
    ensures
        r@ == cs@,
{
    cs.iter().collect()
}

/// The characters of `s`, in order.
pub fn chars_of(s: &str) -> (r: Vec<char>)
    ensures
        r@ == s@,
{
    let mut r: Vec<char> = Vec::new();
    for c in it: s.chars()
        invariant
            r@ == it.seq().take(it.index() as int),
    {
        r.push(c);
    }
    r
}

/// Whether `c` separates words.
pub fn is_blank_char(c: char) -> (r: bool)
    ensures
        r == is_blank(c),
{
    c == ' ' || c == '\t' || c == '\n' || c == '\u{c}' || c == '\r'
}

/// Splits `cs` into its lines.
pub fn split_lines(cs: &Vec<char>) -> (r: Vec<Vec<char>>)
    ensures
        char_vec_models(r@) == lines(cs@),
{
    let mut done: Vec<Vec<char>> = Vec::new();
    let mut cur: Vec<char> = Vec::new();
    let mut i: usize = 0;
    while i < cs.len()
        invariant
            i <= cs@.len(),
            lines(cs@.take(i as int)) == char_vec_models(done@).push(cur@),
        decreases cs@.len() - i,
    {
        let c = cs[i];
        assert(cs@.take(i + 1).drop_last() =~= cs@.take(i as int));
        let ghost before = char_vec_models(done@);
        if c == '\n' {
            done.push(cur);
            cur = Vec::new();
            assert(char_vec_models(done@) =~= before.push(
                char_vec_models(done@).last(),
            ));
        } else {
            cur.push(c);
            assert(lines(cs@.take(i + 1)) =~= before.push(cur@));
        }
        i = i + 1;
    }
    assert(cs@.take(cs@.len() as int) =~= cs@);
    let ghost before = char_vec_models(done@);
    done.push(cur);
    assert(char_vec_models(done@) =~= before.push(char_vec_models(done@).last()));
    done
}

/// The words of one line, as strings.
pub fn line_words(line: &Vec<char>) -> (r: Vec<String>)
    ensures
        string_models(r@) == words(line@),
{
    let mut toks: Vec<String> = Vec::new();
    let mut cur: Vec<char> = Vec::new();
    let mut i: usize = 0;
    while i < line.len()
        invariant
            i <= line@.len(),
            cur@.len() > 0 ==> words(line@.take(i as int)) == string_models(toks@).push(cur@),
            cur@.len() == 0 ==> words(line@.take(i as int)) == string_models(toks@),
            cur@.len() > 0 <==> (i > 0 && !is_blank(line@[i - 1])),
        decreases line@.len() - i,
    {
        let c = line[i];
        assert(line@.take(i + 1).drop_last() =~= line@.take(i as int));
        let ghost before = string_models(toks@);
        if is_blank_char(c) {
            if cur.len() > 0 {
                toks.push(text_of(&cur));
                cur = Vec::new();
                assert(string_models(toks@) =~= before.push(string_models(toks@).last()));
            }
        } else {
            let ghost old_cur = cur@;
            cur.push(c);
            proof {
                assert(line@.take(i + 1).last() == c);
                if i > 0 {
                    assert(line@.take(i + 1)[i - 1] == line@[i - 1]);
                }
                if old_cur.len() == 0 {
                    assert(cur@ =~= seq![c]);
                }
                assert(words(line@.take(i + 1)) =~= before.push(cur@));
            }
        }
        i = i + 1;
    }
    assert(line@.take(line@.len() as int) =~= line@);
    if cur.len() > 0 {
        let ghost before = string_models(toks@);
        toks.push(text_of(&cur));
        assert(string_models(toks@) =~= before.push(string_models(toks@).last()));
    }
    toks
}

/// Whether `t` is exactly the word `kw`.
pub fn is_word(t: &String, kw: &str) -> (r: bool)
    ensures
        r == (t@ == kw@),
{
    let a = t.as_str();
    let n = a.unicode_len();
    if n != kw.unicode_len() {
        return false;
    }
    let mut j: usize = 0;
    while j < n
        invariant
            n == a@.len() == kw@.len(),
            a@ == t@,
            j <= n,
            forall|k: int| 0 <= k < j ==> a@[k] == kw@[k],
        decreases n - j,
    {
        if a.get_char(j) != kw.get_char(j) {
            return false;
        }
        j = j + 1;
    }
    assert(a@ =~= kw@);
    true
}

} // verus!
