//! Indenting every non-empty line of a string.

use vstd::prelude::*;

verus! {

/// A run of `n` space characters.
pub open spec fn spaces(n: nat) -> Seq<char>
    decreases n,
{
    if n == 0 {
        Seq::<char>::empty()
    } else {
        spaces((n - 1) as nat).push(' ')
    }
}

/// The lines of a string, split at `'\n'` alone.  A final newline
/// closes the last line without opening an empty one, the way line
/// iteration usually behaves; a carriage return is ordinary line
/// content.
pub open spec fn lines_of(s: Seq<char>) -> Seq<Seq<char>>
    decreases s.len(),
{
    if s.len() == 0 {
        Seq::<Seq<char>>::empty()
    } else if s[0] == '\n' {
        seq![Seq::<char>::empty()] + lines_of(s.drop_first())
    } else {
        let rest = lines_of(s.drop_first());
        if rest.len() == 0 {
            seq![seq![s[0]]]
        } else {
            seq![seq![s[0]] + rest[0]] + rest.drop_first()
        }
    }
}

/// Lines joined back together, `'\n'` between each adjacent pair.
pub open spec fn join_lines(ls: Seq<Seq<char>>) -> Seq<char>
    decreases ls.len(),
{
    if ls.len() == 0 {
        Seq::<char>::empty()
    } else if ls.len() == 1 {
        ls[0]
    } else {
        ls[0] + seq!['\n'] + join_lines(ls.drop_first())
    }
}

/// One indented line: an empty line stays empty, any other gets
/// `width` spaces in front.
pub open spec fn indent_line(line: Seq<char>, width: nat) -> Seq<char> {
    if line.len() == 0 {
        line
    } else {
        spaces(width) + line
    }
}

/// The whole transform: split into lines, indent each, join back.
pub open spec fn indent_text(s: Seq<char>, width: nat) -> Seq<char> {
    join_lines(lines_of(s).map_values(|line: Seq<char>| indent_line(line, width)))
}

proof fn lemma_lines_of_nonempty(s: Seq<char>)
    requires
        s.len() > 0,
    ensures
        lines_of(s).len() > 0,
    decreases s.len(),
{
    if s[0] == '\n' {
    } else {
        if lines_of(s.drop_first()).len() == 0 {
        } else {
        }
    }
}

proof fn lemma_lines_of_last_open(s: Seq<char>)
    requires
        s.len() > 0,
        s.last() != '\n',
    ensures
        lines_of(s).len() > 0,
        lines_of(s).last().len() > 0,
    decreases s.len(),
{
    lemma_lines_of_nonempty(s);
    let t = s.drop_first();
    if s[0] == '\n' {
        assert(t.len() > 0);
        assert(t.last() == s.last());
        lemma_lines_of_last_open(t);
        assert(lines_of(s).last() == lines_of(t).last());
    } else {
        if s.len() == 1 {
            assert(lines_of(s) == seq![seq![s[0]]]);
        } else {
            assert(t.len() > 0);
            assert(t.last() == s.last());
            lemma_lines_of_last_open(t);
            let rest = lines_of(t);
            if rest.len() == 1 {
                assert(lines_of(s) == seq![seq![s[0]] + rest[0]]);
                assert(lines_of(s).last() == seq![s[0]] + rest[0]);
            } else {
                assert(lines_of(s).last() == rest.last());
            }
        }
    }
}

proof fn lemma_lines_push_newline_after_break(s: Seq<char>)
    requires
        s.len() == 0 || s.last() == '\n',
    ensures
        lines_of(s.push('\n')) == lines_of(s).push(Seq::<char>::empty()),
    decreases s.len(),
{
    let p = s.push('\n');
    if s.len() == 0 {
        assert(p.drop_first() =~= Seq::<char>::empty());
        assert(lines_of(Seq::<char>::empty()) == Seq::<Seq<char>>::empty());
        assert(lines_of(p) == seq![Seq::<char>::empty()] + lines_of(p.drop_first()));
        assert(lines_of(p) =~= lines_of(s).push(Seq::<char>::empty()));
    } else {
        let t = s.drop_first();
        assert(p.drop_first() =~= t.push('\n'));
        assert(t.len() == 0 || t.last() == '\n');
        lemma_lines_push_newline_after_break(t);
        if s[0] == '\n' {
            assert(lines_of(p) == seq![Seq::<char>::empty()] + lines_of(t).push(
                Seq::<char>::empty(),
            ));
            assert(lines_of(p) =~= (seq![Seq::<char>::empty()] + lines_of(t)).push(
                Seq::<char>::empty(),
            ));
        } else {
            assert(s.len() >= 2);
            assert(t.len() > 0);
            lemma_lines_of_nonempty(t);
            let rest = lines_of(t);
            let pushed = rest.push(Seq::<char>::empty());
            assert(pushed[0] == rest[0]);
            assert(pushed.drop_first() =~= rest.drop_first().push(Seq::<char>::empty()));
            assert(lines_of(p) == seq![seq![p[0]] + pushed[0]] + pushed.drop_first());
            assert(lines_of(p) =~= (seq![seq![s[0]] + rest[0]] + rest.drop_first()).push(
                Seq::<char>::empty(),
            ));
        }
    }
}

proof fn lemma_lines_push_newline_mid_line(s: Seq<char>)
    requires
        s.len() > 0,
        s.last() != '\n',
    ensures
        lines_of(s.push('\n')) == lines_of(s),
    decreases s.len(),
{
    let p = s.push('\n');
    let t = s.drop_first();
    assert(p.drop_first() =~= t.push('\n'));
    if s.len() == 1 {
        assert(s[0] != '\n');
        assert(p.drop_first() =~= seq!['\n']);
        assert(seq!['\n'].drop_first() =~= Seq::<char>::empty());
        assert(lines_of(Seq::<char>::empty()) == Seq::<Seq<char>>::empty());
        assert(lines_of(seq!['\n']) == seq![Seq::<char>::empty()] + lines_of(
            seq!['\n'].drop_first(),
        ));
        assert(lines_of(seq!['\n']) =~= seq![Seq::<char>::empty()]);
        assert(lines_of(p) == seq![seq![p[0]] + Seq::<char>::empty()] + lines_of(
            seq!['\n'],
        ).drop_first());
        assert(lines_of(p) =~= seq![seq![s[0]]]);
        assert(t =~= Seq::<char>::empty());
        assert(lines_of(s) == seq![seq![s[0]]]);
    } else {
        assert(t.len() > 0);
        assert(t.last() == s.last());
        lemma_lines_push_newline_mid_line(t);
        if s[0] == '\n' {
            assert(lines_of(p) == seq![Seq::<char>::empty()] + lines_of(t));
        } else {
            lemma_lines_of_nonempty(t);
        }
    }
}

proof fn lemma_lines_push_char_after_break(s: Seq<char>, c: char)
    requires
        s.len() == 0 || s.last() == '\n',
        c != '\n',
    ensures
        lines_of(s.push(c)) == lines_of(s).push(seq![c]),
    decreases s.len(),
{
    let p = s.push(c);
    if s.len() == 0 {
        assert(p.drop_first() =~= Seq::<char>::empty());
        assert(lines_of(Seq::<char>::empty()) == Seq::<Seq<char>>::empty());
        assert(lines_of(p) == seq![seq![p[0]]]);
        assert(lines_of(p) =~= lines_of(s).push(seq![c]));
    } else {
        let t = s.drop_first();
        assert(p.drop_first() =~= t.push(c));
        assert(t.len() == 0 || t.last() == '\n');
        lemma_lines_push_char_after_break(t, c);
        if s[0] == '\n' {
            assert(lines_of(p) == seq![Seq::<char>::empty()] + lines_of(t).push(seq![c]));
            assert(lines_of(p) =~= (seq![Seq::<char>::empty()] + lines_of(t)).push(seq![c]));
        } else {
            assert(s.len() >= 2);
            assert(t.len() > 0);
            lemma_lines_of_nonempty(t);
            let rest = lines_of(t);
            let pushed = rest.push(seq![c]);
            assert(pushed[0] == rest[0]);
            assert(pushed.drop_first() =~= rest.drop_first().push(seq![c]));
            assert(lines_of(p) == seq![seq![p[0]] + pushed[0]] + pushed.drop_first());
            assert(lines_of(p) =~= (seq![seq![s[0]] + rest[0]] + rest.drop_first()).push(seq![c]));
        }
    }
}

proof fn lemma_lines_push_char_mid_line(s: Seq<char>, c: char)
    requires
        s.len() > 0,
        s.last() != '\n',
        c != '\n',
    ensures
        lines_of(s).len() > 0,
        lines_of(s).last().len() > 0,
        lines_of(s.push(c)) == lines_of(s).update(
            lines_of(s).len() - 1,
            lines_of(s).last().push(c),
        ),
    decreases s.len(),
{
    lemma_lines_of_last_open(s);
    let p = s.push(c);
    let t = s.drop_first();
    assert(p.drop_first() =~= t.push(c));
    if s.len() == 1 {
        assert(p.drop_first() =~= seq![c]);
        assert(seq![c].drop_first() =~= Seq::<char>::empty());
        assert(lines_of(Seq::<char>::empty()) == Seq::<Seq<char>>::empty());
        assert(lines_of(seq![c]) =~= seq![seq![c]]);
        assert(lines_of(p) == seq![seq![p[0]] + seq![c]] + lines_of(seq![c]).drop_first());
        assert(seq![p[0]] + seq![c] =~= seq![s[0]].push(c));
        assert(lines_of(p) =~= seq![seq![s[0]].push(c)]);
        assert(t =~= Seq::<char>::empty());
        assert(lines_of(s) == seq![seq![s[0]]]);
        assert(lines_of(s).update(0, lines_of(s).last().push(c)) =~= seq![seq![s[0]].push(c)]);
    } else {
        assert(t.len() > 0);
        assert(t.last() == s.last());
        lemma_lines_push_char_mid_line(t, c);
        let rest = lines_of(t);
        let rl: int = rest.len() as int;
        let updated = rest.update(rl - 1, rest.last().push(c));
        if s[0] == '\n' {
            assert(lines_of(p) == seq![Seq::<char>::empty()] + updated);
            assert(lines_of(s) == seq![Seq::<char>::empty()] + rest);
            assert(lines_of(s).last() == rest.last());
            assert(lines_of(p) =~= (seq![Seq::<char>::empty()] + rest).update(
                rl,
                rest.last().push(c),
            ));
        } else {
            assert(updated.len() == rl);
            if rl == 1 {
                assert(updated[0] == rest[0].push(c));
                assert(updated.drop_first() =~= Seq::<Seq<char>>::empty());
                assert(lines_of(p) == seq![seq![p[0]] + updated[0]] + updated.drop_first());
                assert(lines_of(p) =~= seq![seq![s[0]] + rest[0].push(c)]);
                assert(rest.last() == rest[0]);
                assert(lines_of(s) == seq![seq![s[0]] + rest[0]] + rest.drop_first());
                assert(lines_of(s) =~= seq![seq![s[0]] + rest[0]]);
                assert(seq![s[0]] + rest[0].push(c) =~= (seq![s[0]] + rest[0]).push(c));
                assert(lines_of(s).update(0, lines_of(s).last().push(c)) =~= seq![(seq![s[0]]
                    + rest[0]).push(c)]);
            } else {
                assert(updated[0] == rest[0]);
                assert(updated.drop_first() =~= rest.drop_first().update(
                    rl - 2,
                    rest.last().push(c),
                ));
                assert(lines_of(p) == seq![seq![p[0]] + updated[0]] + updated.drop_first());
                assert(lines_of(s) == seq![seq![s[0]] + rest[0]] + rest.drop_first());
                assert(lines_of(s).last() == rest.last());
                assert(lines_of(p) =~= (seq![seq![s[0]] + rest[0]] + rest.drop_first()).update(
                    rl - 1,
                    rest.last().push(c),
                ));
            }
        }
    }
}

proof fn lemma_join_push(ls: Seq<Seq<char>>, l: Seq<char>)
    requires
        ls.len() > 0,
    ensures
        join_lines(ls.push(l)) == join_lines(ls) + seq!['\n'] + l,
    decreases ls.len(),
{
    let p = ls.push(l);
    assert(p.drop_first() =~= ls.drop_first().push(l));
    if ls.len() == 1 {
        assert(p.drop_first() =~= seq![l]);
        assert(join_lines(p) == p[0] + seq!['\n'] + join_lines(seq![l]));
        assert(join_lines(seq![l]) == l);
    } else {
        lemma_join_push(ls.drop_first(), l);
        assert(join_lines(p) == ls[0] + seq!['\n'] + (join_lines(ls.drop_first()) + seq!['\n']
            + l));
        assert(join_lines(p) =~= (ls[0] + seq!['\n'] + join_lines(ls.drop_first())) + seq!['\n']
            + l);
    }
}

proof fn lemma_join_update_last(ls: Seq<Seq<char>>, c: char)
    requires
        ls.len() > 0,
    ensures
        join_lines(ls.update(ls.len() - 1, ls.last().push(c))) == join_lines(ls).push(c),
    decreases ls.len(),
{
    let u = ls.update(ls.len() - 1, ls.last().push(c));
    if ls.len() == 1 {
        assert(u =~= seq![ls[0].push(c)]);
        assert(join_lines(u) == ls[0].push(c));
    } else {
        let tail = ls.drop_first();
        assert(u[0] == ls[0]);
        assert(ls.last() == tail.last());
        assert(u.drop_first() =~= tail.update(tail.len() - 1, tail.last().push(c)));
        lemma_join_update_last(tail, c);
        assert(join_lines(u) == ls[0] + seq!['\n'] + join_lines(tail).push(c));
        assert(join_lines(u) =~= (ls[0] + seq!['\n'] + join_lines(tail)).push(c));
    }
}

/// How the indented text grows as one more character of input is taken
/// in, in each of the positions that character can stand in.
proof fn lemma_indent_step(s: Seq<char>, c: char, width: nat)
    ensures
        (s.len() == 0 && c == '\n') ==> indent_text(s.push(c), width) == indent_text(s, width),
        (s.len() == 0 && c != '\n') ==> indent_text(s.push(c), width) == indent_text(s, width)
            + spaces(width) + seq![c],
        (s.len() > 0 && s.last() == '\n' && c == '\n') ==> indent_text(s.push(c), width)
            == indent_text(s, width).push('\n'),
        (s.len() > 0 && s.last() == '\n' && c != '\n') ==> indent_text(s.push(c), width)
            == indent_text(s, width) + seq!['\n'] + spaces(width) + seq![c],
        (s.len() > 0 && s.last() != '\n' && c == '\n') ==> indent_text(s.push(c), width)
            == indent_text(s, width),
        (s.len() > 0 && s.last() != '\n' && c != '\n') ==> indent_text(s.push(c), width)
            == indent_text(s, width).push(c),
{
    let f = |line: Seq<char>| indent_line(line, width);
    if s.len() == 0 {
        if c == '\n' {
            lemma_lines_push_newline_after_break(s);
            assert(lines_of(s.push(c)) == seq![Seq::<char>::empty()]);
            assert(lines_of(s.push(c)).map_values(f) =~= seq![Seq::<char>::empty()]);
            assert(indent_text(s.push(c), width) == Seq::<char>::empty());
            assert(lines_of(s).map_values(f) =~= Seq::<Seq<char>>::empty());
            assert(indent_text(s, width) == Seq::<char>::empty());
        } else {
            lemma_lines_push_char_after_break(s, c);
            assert(lines_of(s.push(c)) == seq![seq![c]]);
            assert(lines_of(s.push(c)).map_values(f) =~= seq![f(seq![c])]);
            assert(indent_text(s.push(c), width) == spaces(width) + seq![c]);
            assert(lines_of(s).map_values(f) =~= Seq::<Seq<char>>::empty());
            assert(indent_text(s, width) == Seq::<char>::empty());
            assert(Seq::<char>::empty() + spaces(width) + seq![c] =~= spaces(width) + seq![c]);
        }
    } else if s.last() == '\n' {
        lemma_lines_of_nonempty(s);
        let ls = lines_of(s);
        let mapped = ls.map_values(f);
        assert(mapped.len() > 0);
        if c == '\n' {
            lemma_lines_push_newline_after_break(s);
            assert(lines_of(s.push(c)).map_values(f) =~= mapped.push(Seq::<char>::empty()));
            lemma_join_push(mapped, Seq::<char>::empty());
            assert(join_lines(mapped) + seq!['\n'] + Seq::<char>::empty() =~= join_lines(
                mapped,
            ).push('\n'));
        } else {
            lemma_lines_push_char_after_break(s, c);
            assert(lines_of(s.push(c)).map_values(f) =~= mapped.push(f(seq![c])));
            lemma_join_push(mapped, f(seq![c]));
            assert(f(seq![c]) == spaces(width) + seq![c]);
            assert(join_lines(mapped) + seq!['\n'] + (spaces(width) + seq![c]) =~= join_lines(
                mapped,
            ) + seq!['\n'] + spaces(width) + seq![c]);
        }
    } else {
        if c == '\n' {
            lemma_lines_push_newline_mid_line(s);
        } else {
            lemma_lines_push_char_mid_line(s, c);
            let ls = lines_of(s);
            let n: int = ls.len() as int;
            let mapped = ls.map_values(f);
            assert(lines_of(s.push(c)) == ls.update(n - 1, ls.last().push(c)));
            assert(f(ls.last().push(c)) =~= f(ls.last()).push(c)) by {
                assert(spaces(width) + ls.last().push(c) =~= (spaces(width) + ls.last()).push(c));
            }
            assert(lines_of(s.push(c)).map_values(f) =~= mapped.update(n - 1, mapped.last().push(
                c,
            ))) by {
                assert(mapped.last() == f(ls.last()));
            }
            lemma_join_update_last(mapped, c);
        }
    }
}

/// Indenting by zero spaces adds nothing to any line: the transform is
/// then exactly the round trip through line splitting and joining.
pub proof fn lemma_indent_width_zero(s: Seq<char>)
    ensures
        indent_text(s, 0) == join_lines(lines_of(s)),
{
    let f = |line: Seq<char>| indent_line(line, 0);
    let ls = lines_of(s);
    assert forall|i: int| 0 <= i < ls.len() implies ls.map_values(f)[i] == ls[i] by {
        assert(spaces(0) + ls[i] =~= ls[i]);
    }
    assert(ls.map_values(f) =~= ls);
}

fn push_spaces(out: &mut String, width: usize)
    ensures
        final(out)@ == old(out)@ + spaces(width as nat),
{
    let mut k: usize = 0;
    proof {
        assert(old(out)@ + spaces(0) =~= old(out)@);
    }
    while k < width
        invariant
            k <= width,
            out@ == old(out)@ + spaces(k as nat),
        decreases width - k,
    {
        out.append(" ");
        k = k + 1;
        proof {
            reveal_strlit(" ");
            assert(old(out)@ + spaces((k - 1) as nat) + " "@ =~= old(out)@ + spaces(k as nat));
        }
    }
}

/// Returns `text` with every non-empty line indented by `width`
/// spaces.  Lines are the `'\n'`-separated pieces of the input; a
/// final newline closes the last line without opening an empty one,
/// and empty lines are left untouched, so the transform never inserts
/// trailing whitespace on a blank line.
pub fn indent_str(text: &str, width: usize) -> (r: String)
    ensures
        r@ == indent_text(text@, width as nat),
{
    let n: usize = text.unicode_len();
    let mut out = String::new();
    let mut i: usize = 0;
    let mut prev_is_newline = false;
    proof {
        assert(text@.take(0) =~= Seq::<char>::empty());
        assert(lines_of(Seq::<char>::empty()) == Seq::<Seq<char>>::empty());
        assert(lines_of(Seq::<char>::empty()).map_values(
            |line: Seq<char>| indent_line(line, width as nat),
        ) =~= Seq::<Seq<char>>::empty());
    }
    while i < n
        invariant
            i <= n,
            n == text@.len(),
            out@ == indent_text(text@.take(i as int), width as nat),
            i > 0 ==> prev_is_newline == (text@[i - 1] == '\n'),
        decreases n - i,
    {
        let ghost prefix = text@.take(i as int);
        let ghost w: nat = width as nat;
        let c = text.get_char(i);
        proof {
            lemma_indent_step(prefix, c, w);
            assert(text@.take(i + 1) =~= prefix.push(c));
            if i > 0 {
                assert(prefix.last() == text@[i - 1]);
            }
        }
        if c == '\n' {
            if i > 0 && prev_is_newline {
                out.append("\n");
                proof {
                    reveal_strlit("\n");
                    assert(indent_text(prefix, w) + "\n"@ =~= indent_text(prefix, w).push('\n'));
                }
            }
            prev_is_newline = true;
        } else {
            if i == 0 {
                push_spaces(&mut out, width);
            } else if prev_is_newline {
                out.append("\n");
                push_spaces(&mut out, width);
                proof {
                    reveal_strlit("\n");
                    assert(indent_text(prefix, w) + "\n"@ + spaces(w) =~= indent_text(prefix, w)
                        + seq!['\n'] + spaces(w));
                }
            }
            let piece = text.substring_char(i, i + 1);
            out.append(piece);
            proof {
                assert(piece@ =~= seq![c]);
                if i == 0 {
                    assert(indent_text(prefix, w) =~= Seq::<char>::empty());
                    assert(indent_text(prefix, w) + spaces(w) + piece@ =~= indent_text(prefix, w)
                        + spaces(w) + seq![c]);
                } else if prefix.last() == '\n' {
                    assert(indent_text(prefix, w) + seq!['\n'] + spaces(w) + piece@
                        =~= indent_text(prefix, w) + seq!['\n'] + spaces(w) + seq![c]);
                } else {
                    assert(indent_text(prefix, w) + piece@ =~= indent_text(prefix, w).push(c));
                }
            }
            prev_is_newline = false;
        }
        i = i + 1;
    }
    proof {
        assert(text@.take(n as int) =~= text@);
    }
    out
}

/// String utilities.
pub trait StringExt: Sized {
    /// The characters of the string.
    spec fn chars_view(&self) -> Seq<char>;

    /// Indents every non-empty line by `width` spaces, leaving empty
    /// lines untouched.
    fn indent(&self, width: usize) -> (r: Self)
        ensures
            r.chars_view() == indent_text(self.chars_view(), width as nat),
    ;
}

impl StringExt for String {
    open spec fn chars_view(&self) -> Seq<char> {
        self@
    }

    fn indent(&self, width: usize) -> (r: String) {
        indent_str(self.as_str(), width)
    }
}

} // verus!
