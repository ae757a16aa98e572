//! Line-oriented parsing of environment files.
//!
//! An environment file is a sequence of lines separated by `'\n'`. A line
//! that holds at least one `'='` defines a variable: the key is the text
//! before the first `'='` and the value is the text between the first
//! `'='` and the second one, or the end of the line. Every other line is
//! ignored.

use crate::EnvVariable;
use vstd::prelude::*;
use vstd::string::StrSliceExecFns;

verus! {

/// The index of the first occurrence of `sep` in `s`, or `s.len()` when
/// `s` does not contain `sep`.
pub open spec fn find_sep(s: Seq<char>, sep: char) -> int
    decreases s.len(),
{
    if s.len() == 0 {
        0
    } else if s[0] == sep {
        0
    } else {
        1 + find_sep(s.drop_first(), sep)
    }
}

/// `find_sep` points at the first occurrence of the separator, or past
/// the end when there is none.
pub proof fn lemma_find_sep(s: Seq<char>, sep: char)
    ensures
        0 <= find_sep(s, sep) <= s.len(),
        find_sep(s, sep) < s.len() ==> s[find_sep(s, sep)] == sep,
        forall|k: int| 0 <= k < find_sep(s, sep) ==> s[k] != sep,
    decreases s.len(),
{
    if s.len() == 0 {
    } else if s[0] == sep {
    } else {
        lemma_find_sep(s.drop_first(), sep);
        assert forall|k: int| 0 <= k < find_sep(s, sep) implies s[k] != sep by {
            if k > 0 {
                assert(s.drop_first()[k - 1] == s[k]);
            }
        }
    }
}

/// The index where the scan for a separator stopped is exactly
/// `find_sep`: nothing before it is the separator, and it either carries
/// the separator or sits past the end.
pub proof fn lemma_find_sep_at(s: Seq<char>, sep: char, i: int)
    requires
        0 <= i <= s.len(),
        forall|k: int| 0 <= k < i ==> s[k] != sep,
        i < s.len() ==> s[i] == sep,
    ensures
        find_sep(s, sep) == i,
{
    lemma_find_sep(s, sep);
}

/// `s` cut at every occurrence of `sep`, the separators themselves
/// dropped. The result always holds at least one piece; an empty `s`
/// gives one empty piece.
pub open spec fn split_on(s: Seq<char>, sep: char) -> Seq<Seq<char>>
    decreases s.len(),
{
    let i = find_sep(s, sep);
    if 0 <= i < s.len() {
        seq![s.take(i)] + split_on(s.skip(i + 1), sep)
    } else {
        seq![s]
    }
}

/// The variable a line defines: the text before the first `'='` as the
/// key and the text from there to the next `'='` or the end of the line
/// as the value; a line without `'='` defines none.
pub open spec fn parse_line(line: Seq<char>) -> Option<(Seq<char>, Seq<char>)> {
    let i = find_sep(line, '=');
    if 0 <= i < line.len() {
        let rest = line.skip(i + 1);
        Some((line.take(i), rest.take(find_sep(rest, '='))))
    } else {
        None
    }
}

/// The variables defined by a sequence of lines, in order, lines that
/// define none skipped.
pub open spec fn parse_lines(lines: Seq<Seq<char>>) -> Seq<(Seq<char>, Seq<char>)>
    decreases lines.len(),
{
    if lines.len() == 0 {
        Seq::empty()
    } else {
        let rest = parse_lines(lines.drop_first());
        match parse_line(lines.first()) {
            Some(kv) => seq![kv] + rest,
            None => rest,
        }
    }
}

/// The variables defined by the text of an environment file.
pub open spec fn parse_env(s: Seq<char>) -> Seq<(Seq<char>, Seq<char>)> {
    parse_lines(split_on(s, '\n'))
}

/// Reads the `KEY=VALUE` lines of an environment file: one variable for
/// each line that holds an `'='`, in the order of the lines.
pub fn parse_env_file(file_contents: &str) -> (r: Vec<EnvVariable>)
    ensures
        r.deep_view() == parse_env(file_contents@),
{
    let n = file_contents.unicode_len();
    let mut result: Vec<EnvVariable> = Vec::new();
    let mut start: usize = 0;
    proof {
        assert(file_contents@.skip(0) =~= file_contents@);
        assert(result.deep_view() =~= Seq::<(Seq<char>, Seq<char>)>::empty());
        assert(Seq::<(Seq<char>, Seq<char>)>::empty() + parse_env(file_contents@) =~= parse_env(
            file_contents@,
        ));
    }
    loop
        invariant_except_break
            start <= n,
            n == file_contents@.len(),
            parse_env(file_contents@) == result.deep_view() + parse_lines(
                split_on(file_contents@.skip(start as int), '\n'),
            ),
        ensures
            result.deep_view() == parse_env(file_contents@),
        decreases n - start,
    {
        let ghost s = file_contents@;
        let ghost old_result = result.deep_view();
        // find the end of the current line
        let mut j = start;
        while j < n && file_contents.get_char(j) != '\n'
            invariant
                start <= j <= n,
                n == file_contents@.len(),
                forall|k: int| start <= k < j ==> file_contents@[k] != '\n',
            decreases n - j,
        {
            j = j + 1;
        }
        let ghost line = s.subrange(start as int, j as int);
        // find the first '=' of the line
        let mut p = start;
        while p < j && file_contents.get_char(p) != '='
            invariant
                start <= p <= j <= n,
                n == file_contents@.len(),
                forall|k: int| start <= k < p ==> file_contents@[k] != '=',
            decreases j - p,
        {
            p = p + 1;
        }
        if p < j {
            // find the second '=' of the line, or its end
            let mut q = p + 1;
            while q < j && file_contents.get_char(q) != '='
                invariant
                    p < q <= j <= n,
                    n == file_contents@.len(),
                    forall|k: int| p + 1 <= k < q ==> file_contents@[k] != '=',
                decreases j - q,
            {
                q = q + 1;
            }
            let key = file_contents.substring_char(start, p).to_owned();
            let value = file_contents.substring_char(p + 1, q).to_owned();
            proof {
                assert(line.len() == j - start);
                assert forall|k: int| 0 <= k < p - start implies line[k] != '=' by {
                    assert(line[k] == s[start + k]);
                }
                assert(line[p - start] == s[p as int]);
                lemma_find_sep_at(line, '=', p - start);
                let rest = line.skip(p - start + 1);
                assert(rest =~= s.subrange(p + 1, j as int));
                assert forall|k: int| 0 <= k < q - p - 1 implies rest[k] != '=' by {
                    assert(rest[k] == s[p + 1 + k]);
                }
                if q < j {
                    assert(rest[q - p - 1] == s[q as int]);
                }
                lemma_find_sep_at(rest, '=', q - p - 1);
                assert(line.take(p - start) =~= s.subrange(start as int, p as int));
                assert(rest.take(q - p - 1) =~= s.subrange(p + 1, q as int));
                assert(parse_line(line) == Some((key@, value@)));
            }
            result.push(EnvVariable { key, value });
            proof {
                assert(result.deep_view() =~= old_result.push((key@, value@)));
            }
        } else {
            proof {
                assert(line.len() == j - start);
                assert forall|k: int| 0 <= k < line.len() implies line[k] != '=' by {
                    assert(line[k] == s[start + k]);
                }
                lemma_find_sep_at(line, '=', line.len() as int);
                assert(parse_line(line) is None);
            }
        }
        proof {
            // one step of the line split: the piece just handled comes off
            // the front of what remains
            let t = s.skip(start as int);
            assert forall|k: int| 0 <= k < j - start implies t[k] != '\n' by {
                assert(t[k] == s[start + k]);
            }
            if j < n {
                assert(t[j - start] == s[j as int]);
                lemma_find_sep_at(t, '\n', j - start);
                assert(t.take(j - start) =~= line);
                assert(t.skip(j - start + 1) =~= s.skip(j + 1));
                assert(split_on(t, '\n') == seq![line] + split_on(s.skip(j + 1), '\n'));
                let tail = split_on(s.skip(j + 1), '\n');
                assert((seq![line] + tail).drop_first() =~= tail);
                assert((seq![line] + tail).first() == line);
                match parse_line(line) {
                    Some(kv) => {
                        assert(parse_lines(seq![line] + tail) == seq![kv] + parse_lines(tail));
                        assert(old_result + (seq![kv] + parse_lines(tail)) =~= (old_result.push(kv))
                            + parse_lines(tail));
                    },
                    None => {
                        assert(parse_lines(seq![line] + tail) == parse_lines(tail));
                    },
                }
            } else {
                lemma_find_sep_at(t, '\n', t.len() as int);
                assert(t =~= line);
                assert(split_on(t, '\n') == seq![line]);
                assert(seq![line].drop_first() =~= Seq::<Seq<char>>::empty());
                assert(seq![line].first() == line);
                assert(parse_lines(Seq::<Seq<char>>::empty()) =~= Seq::<(Seq<char>, Seq<char>)>::empty());
                match parse_line(line) {
                    Some(kv) => {
                        assert(parse_lines(seq![line]) =~= seq![kv]);
                        assert(old_result + seq![kv] =~= old_result.push(kv));
                    },
                    None => {
                        assert(parse_lines(seq![line]) =~= Seq::<(Seq<char>, Seq<char>)>::empty());
                        assert(old_result + parse_lines(seq![line]) =~= old_result);
                    },
                }
            }
        }
        if j == n {
            break;
        }
        start = j + 1;
    }
    result
}

/// A list of environment variables.
pub struct EnvVariables(pub Vec<EnvVariable>);

/// What `EnvVariables::display_text` returns: every key on a line of its
/// own, in order.
pub open spec fn spec_keys_text(vars: Seq<(Seq<char>, Seq<char>)>) -> Seq<char>
    decreases vars.len(),
{
    if vars.len() == 0 {
        Seq::empty()
    } else {
        spec_keys_text(vars.drop_last()) + vars.last().0 + "\n"@
    }
}

impl EnvVariables {
    /// The text shown for a list of variables: each key on its own line.
    pub fn display_text(&self) -> (r: String)
        ensures
            r@ == spec_keys_text(self.0.deep_view()),
    {
        let mut text = String::new();
        let ghost dv = self.0.deep_view();
        proof {
            assert(dv.take(0) =~= Seq::<(Seq<char>, Seq<char>)>::empty());
        }
        let mut i: usize = 0;
        while i < self.0.len()
            invariant
                i <= self.0.len(),
                dv == self.0.deep_view(),
                text@ == spec_keys_text(dv.take(i as int)),
            decreases self.0.len() - i,
        {
            text.append(self.0[i].key.as_str());
            text.append("\n");
            proof {
                assert(dv.take(i + 1).drop_last() =~= dv.take(i as int));
                assert(dv.take(i + 1).last() == dv[i as int]);
            }
            i = i + 1;
        }
        proof {
            assert(dv.take(dv.len() as int) =~= dv);
        }
        text
    }
}

} // verus!
