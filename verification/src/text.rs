//! Text helpers shared by the rest of the library: building strings and
//! the specification of joining pieces with a separator.
use vstd::prelude::*;
use vstd::string::*;

verus! {

/// `parts` joined with `sep` between consecutive pieces.
pub open spec fn join(parts: Seq<Seq<char>>, sep: Seq<char>) -> Seq<char>
    decreases parts.len(),
{
    if parts.len() == 0 {
        Seq::empty()
    } else if parts.len() == 1 {
        parts[0]
    } else {
        join(parts.drop_last(), sep) + sep + parts.last()
    }
}

/// The views of a vector of strings.
pub open spec fn views(v: Seq<String>) -> Seq<Seq<char>> {
    Seq::new(v.len(), |i: int| v[i]@)
}

/// Appends one character (`String::push`).
#[verifier::external_body]
pub(crate) fn push_char(s: &mut String, c: char)
    ensures
        final(s)@ == old(s)@.push(c),
{
    s.push(c);
}

/// Whether two string slices hold the same text (`str == str`).
#[verifier::external_body]
pub(crate) fn str_eq(a: &str, b: &str) -> (r: bool)
    ensures
        r == (a@ == b@),
{
    a == b
}

/// The characters of a string slice, in order (`str::chars` collected).
#[verifier::external_body]
pub(crate) fn chars_of(s: &str) -> (r: Vec<char>)
    ensures
        r@ == s@,
{
    s.chars().collect()
}

pub fn string_from_chars(cs: &Vec<char>) -> (r: String)
    ensures
        r@ == cs@,
{
    let mut out = String::new();
    let mut i: usize = 0;
    while i < cs.len()
        invariant
            i <= cs.len(),
            out@ == cs@.take(i as int),
        decreases cs.len() - i,
    {
        push_char(&mut out, cs[i]);
        proof {
            assert(cs@.take(i as int + 1) =~= cs@.take(i as int).push(cs@[i as int]));
        }
        i = i + 1;
    }
    proof {
        assert(cs@.take(i as int) =~= cs@);
    }
    out
}

pub fn join_strings(parts: &Vec<String>, sep: &str) -> (r: String)
    ensures
        r@ == join(views(parts@), sep@),
{
    let mut out = String::new();
    let mut i: usize = 0;
    while i < parts.len()
        invariant
            i <= parts.len(),
            out@ == join(views(parts@).take(i as int), sep@),
        decreases parts.len() - i,
    {
        let ghost before = views(parts@).take(i as int);
        proof {
            assert(views(parts@).take(i as int + 1).drop_last() =~= before);
        }
        if i > 0 {
            out.append(sep);
        }
        out.append(parts[i].as_str());
        i = i + 1;
    }
    proof {
        assert(views(parts@).take(i as int) =~= views(parts@));
    }
    out
}

} // verus!

verus! {

/// The pieces of `s` between `\n` characters (one more than there are `\n`).
pub open spec fn split_newline(s: Seq<char>) -> Seq<Seq<char>>
    decreases s.len(),
{
    if s.len() == 0 {
        seq![Seq::empty()]
    } else {
        let rest = split_newline(s.drop_last());
        if s.last() == '\n' {
            rest.push(Seq::empty())
        } else {
            rest.update(rest.len() - 1, rest.last().push(s.last()))
        }
    }
}

pub open spec fn strip_cr(line: Seq<char>) -> Seq<char> {
    if line.len() > 0 && line.last() == '\r' {
        line.drop_last()
    } else {
        line
    }
}

/// The lines of a text as `str::lines` yields them: split at `\n`, a `\r`
/// right before a `\n` dropped, and no empty line after a final `\n`.
pub open spec fn text_lines(s: Seq<char>) -> Seq<Seq<char>> {
    let pieces = split_newline(s);
    let ended = Seq::new((pieces.len() - 1) as nat, |i: int| strip_cr(pieces[i]));
    if pieces.last().len() == 0 {
        ended
    } else {
        ended.push(pieces.last())
    }
}

pub proof fn lemma_split_newline_nonempty(s: Seq<char>)
    ensures
        split_newline(s).len() >= 1,
    decreases s.len(),
{
    if s.len() > 0 {
        lemma_split_newline_nonempty(s.drop_last());
    }
}

/// `str::lines`, collected.
pub fn split_lines(s: &str) -> (r: Vec<String>)
    ensures
        views(r@) == text_lines(s@),
{
    let cs = chars_of(s);
    let mut out: Vec<String> = Vec::new();
    let mut current = String::new();
    let mut k: usize = 0;
    proof {
        assert(cs@.take(0) =~= Seq::<char>::empty());
    }
    while k < cs.len()
        invariant
            k <= cs.len(),
            cs@ == s@,
            split_newline(cs@.take(k as int)).len() >= 1,
            views(out@) == Seq::new(
                (split_newline(cs@.take(k as int)).len() - 1) as nat,
                |i: int| strip_cr(split_newline(cs@.take(k as int))[i]),
            ),
            current@ == split_newline(cs@.take(k as int)).last(),
        decreases cs.len() - k,
    {
        let ghost before = cs@.take(k as int);
        let ghost after = cs@.take(k as int + 1);
        proof {
            assert(after.drop_last() =~= before);
            assert(after.last() == cs@[k as int]);
            lemma_split_newline_nonempty(after);
        }
        let c = cs[k];
        if c == '\n' {
            let mut line = current.clone();
            let cc = chars_of(line.as_str());
            if cc.len() > 0 && cc[cc.len() - 1] == '\r' {
                let mut trimmed: Vec<char> = Vec::new();
                let mut t: usize = 0;
                while t < cc.len() - 1
                    invariant
                        cc.len() > 0,
                        t <= cc.len() - 1,
                        trimmed@ == cc@.take(t as int),
                    decreases cc.len() - 1 - t,
                {
                    trimmed.push(cc[t]);
                    proof {
                        assert(cc@.take(t as int + 1) =~= cc@.take(t as int).push(cc@[t as int]));
                    }
                    t = t + 1;
                }
                proof {
                    assert(cc@.take(cc.len() - 1) =~= cc@.drop_last());
                }
                line = string_from_chars(&trimmed);
            }
            proof {
                assert(line@ == strip_cr(current@));
            }
            let ghost old_views = views(out@);
            out.push(line);
            current = String::new();
            proof {
                let rest = split_newline(before);
                assert(split_newline(after) == rest.push(Seq::empty()));
                assert(views(out@) =~= old_views.push(line@));
                assert(views(out@) =~= Seq::new(
                    (split_newline(after).len() - 1) as nat,
                    |i: int| strip_cr(split_newline(after)[i]),
                ));
            }
        } else {
            push_char(&mut current, c);
            proof {
                let rest = split_newline(before);
                assert(split_newline(after) == rest.update(rest.len() - 1, rest.last().push(c)));
                assert(views(out@) =~= Seq::new(
                    (split_newline(after).len() - 1) as nat,
                    |i: int| strip_cr(split_newline(after)[i]),
                ));
            }
        }
        k = k + 1;
    }
    proof {
        assert(cs@.take(k as int) =~= s@);
    }
    if !current.as_str().is_empty() {
        out.push(current);
        proof {
            assert(views(out@) =~= text_lines(s@));
        }
    } else {
        proof {
            assert(current@.len() == 0);
            assert(views(out@) =~= text_lines(s@));
        }
    }
    out
}

} // verus!

verus! {

/// `str::starts_with` with a string prefix.
pub fn starts_with(s: &str, prefix: &str) -> (r: bool)
    ensures
        r == prefix@.is_prefix_of(s@),
{
    let cs = chars_of(s);
    let ps = chars_of(prefix);
    if ps.len() > cs.len() {
        return false;
    }
    let mut i: usize = 0;
    while i < ps.len()
        invariant
            i <= ps.len(),
            ps.len() <= cs.len(),
            cs@ == s@,
            ps@ == prefix@,
            forall|k: int| 0 <= k < i ==> ps@[k] == cs@[k],
        decreases ps.len() - i,
    {
        if ps[i] != cs[i] {
            return false;
        }
        i = i + 1;
    }
    true
}

/// `str::contains` with a string needle.
pub open spec fn contains_at(s: Seq<char>, needle: Seq<char>, at: int) -> bool {
    0 <= at && at + needle.len() <= s.len() && s.subrange(at, at + needle.len()) == needle
}

pub open spec fn contains(s: Seq<char>, needle: Seq<char>) -> bool {
    exists|at: int| contains_at(s, needle, at)
}

fn matches_at(s: &Vec<char>, needle: &Vec<char>, at: usize) -> (r: bool)
    requires
        at + needle.len() <= s.len(),
    ensures
        r == contains_at(s@, needle@, at as int),
{
    let mut i: usize = 0;
    while i < needle.len()
        invariant
            i <= needle.len(),
            at + needle.len() <= s.len(),
            forall|k: int| 0 <= k < i ==> needle@[k] == s@[at + k],
        decreases needle.len() - i,
    {
        if needle[i] != s[at + i] {
            proof {
                assert(s@.subrange(at as int, at + needle.len())[i as int] == s@[at + i]);
            }
            return false;
        }
        i = i + 1;
    }
    proof {
        assert(s@.subrange(at as int, at + needle.len()) =~= needle@);
    }
    true
}

pub fn contains_chars(s: &Vec<char>, needle: &Vec<char>) -> (r: bool)
    ensures
        r == contains(s@, needle@),
{
    if needle.len() > s.len() {
        return false;
    }
    let last = s.len() - needle.len();
    let mut at: usize = 0;
    while at < last
        invariant
            last == s.len() - needle.len(),
            needle.len() <= s.len(),
            at <= last,
            forall|k: int| 0 <= k < at ==> !contains_at(s@, needle@, k),
        decreases last - at,
    {
        if matches_at(s, needle, at) {
            return true;
        }
        at = at + 1;
    }
    matches_at(s, needle, last)
}

} // verus!

verus! {

/// A copy of a vector of strings.
pub fn clone_strings(v: &Vec<String>) -> (r: Vec<String>)
    ensures
        views(r@) == views(v@),
{
    let mut out: Vec<String> = Vec::new();
    let mut i: usize = 0;
    while i < v.len()
        invariant
            i <= v.len(),
            views(out@) == views(v@).take(i as int),
        decreases v.len() - i,
    {
        let c = v[i].clone();
        let ghost before = views(out@);
        out.push(c);
        proof {
            assert(c@ == v@[i as int]@);
            assert(views(out@) =~= before.push(c@));
            assert(views(v@).take(i as int + 1) =~= views(v@).take(i as int).push(v@[i as int]@));
        }
        i = i + 1;
    }
    proof {
        assert(views(v@).take(i as int) =~= views(v@));
    }
    out
}

} // verus!

verus! {

/// Pieces of text one after another.
pub open spec fn concat_strs(parts: Seq<&str>) -> Seq<char>
    decreases parts.len(),
{
    if parts.len() == 0 {
        Seq::empty()
    } else {
        concat_strs(parts.drop_last()) + parts.last()@
    }
}

} // verus!

verus! {

/// A text without a line break.
pub open spec fn one_line(s: Seq<char>) -> bool {
    forall|i: int| 0 <= i < s.len() ==> s[i] != '\n'
}

/// Appending text without a line break extends the last piece.
proof fn lemma_split_append(x: Seq<char>, y: Seq<char>)
    requires
        one_line(y),
    ensures
        split_newline(x + y) == split_newline(x).update(
            split_newline(x).len() - 1,
            split_newline(x).last() + y,
        ),
    decreases y.len(),
{
    lemma_split_newline_nonempty(x);
    if y.len() == 0 {
        assert(x + y =~= x);
        assert(split_newline(x).last() + y =~= split_newline(x).last());
        assert(split_newline(x).update(split_newline(x).len() - 1, split_newline(x).last()) =~= split_newline(x));
    } else {
        let y0 = y.drop_last();
        lemma_split_append(x, y0);
        assert((x + y).drop_last() =~= x + y0);
        assert((x + y).last() == y.last());
        assert(split_newline(x).last() + y =~= (split_newline(x).last() + y0).push(y.last()));
        let p = split_newline(x);
        let q = p.update(p.len() - 1, p.last() + y0);
        assert(q.update(q.len() - 1, q.last().push(y.last())) =~= p.update(p.len() - 1, p.last() + y));
    }
}

/// Pieces without line breaks, joined with line breaks, split back into
/// the same pieces.
pub proof fn lemma_split_join(parts: Seq<Seq<char>>)
    requires
        parts.len() >= 1,
        forall|i: int| 0 <= i < parts.len() ==> one_line(#[trigger] parts[i]),
    ensures
        split_newline(join(parts, "\n"@)) == parts,
    decreases parts.len(),
{
    reveal_strlit("\n");
    if parts.len() == 1 {
        lemma_split_append(Seq::empty(), parts[0]);
        assert(Seq::<char>::empty() + parts[0] =~= parts[0]);
        assert(split_newline(Seq::<char>::empty()) =~= seq![Seq::<char>::empty()]);
        assert(seq![Seq::<char>::empty()].update(0, Seq::<char>::empty() + parts[0]) =~= parts);
    } else {
        let init = parts.drop_last();
        assert forall|i: int| 0 <= i < init.len() implies one_line(#[trigger] init[i]) by {
            assert(init[i] == parts[i]);
        }
        lemma_split_join(init);
        let x = join(init, "\n"@);
        let xn = x.push('\n');
        assert(join(parts, "\n"@) =~= xn + parts.last());
        assert(xn.drop_last() =~= x);
        lemma_split_append(xn, parts.last());
        lemma_split_newline_nonempty(x);
        let p = split_newline(xn);
        assert(p =~= init.push(Seq::empty()));
        assert(p.update(p.len() - 1, p.last() + parts.last()) =~= parts);
    }
}

/// The pieces of a text between line breaks hold no line break.
pub proof fn lemma_split_pieces_one_line(s: Seq<char>)
    ensures
        forall|i: int| 0 <= i < split_newline(s).len() ==> one_line(#[trigger] split_newline(s)[i]),
    decreases s.len(),
{
    if s.len() > 0 {
        lemma_split_pieces_one_line(s.drop_last());
        lemma_split_newline_nonempty(s.drop_last());
    }
}

/// The lines of a text hold no line break.
pub proof fn lemma_text_lines_one_line(s: Seq<char>)
    ensures
        forall|i: int| 0 <= i < text_lines(s).len() ==> one_line(#[trigger] text_lines(s)[i]),
{
    lemma_split_pieces_one_line(s);
    lemma_split_newline_nonempty(s);
    let pieces = split_newline(s);
    assert forall|i: int| 0 <= i < text_lines(s).len() implies one_line(#[trigger] text_lines(s)[i]) by {
        if i < pieces.len() - 1 {
            assert(one_line(pieces[i]));
        } else {
            assert(one_line(pieces.last()));
        }
    }
}

} // verus!
