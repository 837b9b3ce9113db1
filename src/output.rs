//! The loader's dependency listing (`ld.so --list`): one library a line, in
//! the form `name => path (address)`.

use vstd::prelude::*;

verus! {

/// The characters that `char::is_whitespace` accepts (Unicode White_Space).
pub open spec fn is_blank(c: char) -> bool {
    let v = c as u32;
    (9 <= v && v <= 13) || v == 32 || v == 0x85 || v == 0xa0 || v == 0x1680 || (0x2000 <= v
        && v <= 0x200a) || v == 0x2028 || v == 0x2029 || v == 0x202f || v == 0x205f || v == 0x3000
}

/// The text cut at each `'\n'`; an empty text is one empty line. A final
/// line that is empty (text that ends in `'\n'`) holds no field, so it
/// changes nothing that is read from the lines.
pub open spec fn lines_of(s: Seq<char>) -> Seq<Seq<char>>
    decreases s.len(),
{
    if s.len() == 0 {
        seq![Seq::<char>::empty()]
    } else {
        let ls = lines_of(s.drop_last());
        if s.last() == '\n' {
            ls.push(Seq::<char>::empty())
        } else {
            ls.update(ls.len() - 1, ls.last().push(s.last()))
        }
    }
}

/// The maximal runs of non-blank characters of a line, in order.
pub open spec fn fields_of(s: Seq<char>) -> Seq<Seq<char>>
    decreases s.len(),
{
    if s.len() == 0 {
        Seq::<Seq<char>>::empty()
    } else {
        let fs = fields_of(s.drop_last());
        let c = s.last();
        if is_blank(c) {
            fs
        } else if s.drop_last().len() == 0 || is_blank(s.drop_last().last()) {
            fs.push(seq![c])
        } else {
            fs.update(fs.len() - 1, fs.last().push(c))
        }
    }
}

/// The path that a line with these fields names: only a line of exactly four
/// fields `name => path address`, whose path differs from its name, is not
/// empty and does not start with `(` (an address, where no file was found).
pub open spec fn dependency_of(f: Seq<Seq<char>>) -> Option<Seq<char>> {
    if f.len() == 4 && f[0] != f[2] && f[2].len() > 0 && f[1] == seq!['=', '>'] && f[2][0]
        != '(' {
        Some(f[2])
    } else {
        None
    }
}

/// What one line adds to the listing: its path, or nothing.
pub open spec fn line_paths(line: Seq<char>) -> Seq<Seq<char>> {
    match dependency_of(fields_of(line)) {
        Some(p) => seq![p],
        None => Seq::<Seq<char>>::empty(),
    }
}

/// The paths that the lines name, in the order of the lines.
pub open spec fn paths_of_lines(ls: Seq<Seq<char>>) -> Seq<Seq<char>>
    decreases ls.len(),
{
    if ls.len() == 0 {
        Seq::<Seq<char>>::empty()
    } else {
        paths_of_lines(ls.drop_last()) + line_paths(ls.last())
    }
}

/// The paths that a whole listing names.
pub open spec fn listed_paths(s: Seq<char>) -> Seq<Seq<char>> {
    paths_of_lines(lines_of(s))
}

/// The text of each span `[start, end)` of characters of `s`.
pub open spec fn span_texts(s: Seq<char>, spans: Seq<(usize, usize)>) -> Seq<Seq<char>> {
    spans.map_values(|sp: (usize, usize)| s.subrange(sp.0 as int, sp.1 as int))
}

/// Each span is non-empty and ends at or before `end`.
pub open spec fn spans_within(spans: Seq<(usize, usize)>, end: int) -> bool {
    forall|k: int| 0 <= k < spans.len() ==> (#[trigger] spans[k]).0 < spans[k].1 && spans[k].1 <= end
}

/// Text without a line break is one line.
pub proof fn lemma_one_line(s: Seq<char>)
    requires
        forall|i: int| 0 <= i < s.len() ==> s[i] != '\n',
    ensures
        lines_of(s) == seq![s],
    decreases s.len(),
{
    if s.len() > 0 {
        lemma_one_line(s.drop_last());
        assert(s.drop_last().push(s.last()) =~= s);
        assert(seq![s.drop_last()].update(0, s.drop_last().push(s.last())) =~= seq![s]);
    } else {
        assert(s =~= Seq::<char>::empty());
    }
}

/// A line `name => path address` whose path differs from its name, is not
/// empty and does not start with `(` yields exactly its path.
pub proof fn lemma_listed_line_yields_path(
    line: Seq<char>,
    name: Seq<char>,
    path: Seq<char>,
    address: Seq<char>,
)
    requires
        forall|i: int| 0 <= i < line.len() ==> line[i] != '\n',
        fields_of(line) == seq![name, seq!['=', '>'], path, address],
        name != path,
        path.len() > 0,
        path[0] != '(',
    ensures
        listed_paths(line) == seq![path],
{
    lemma_one_line(line);
    assert(seq![line].drop_last() =~= Seq::<Seq<char>>::empty());
    assert(Seq::<Seq<char>>::empty() + seq![path] =~= seq![path]);
    reveal_with_fuel(paths_of_lines, 2);
}

/// A line whose path is empty or starts with `(`, whose path is its name,
/// whose second field is not `=>`, or that has not exactly four fields,
/// yields nothing.
pub proof fn lemma_other_line_yields_nothing(line: Seq<char>)
    requires
        forall|i: int| 0 <= i < line.len() ==> line[i] != '\n',
        ({
            let f = fields_of(line);
            f.len() != 4 || f[2].len() == 0 || f[2][0] == '(' || f[0] == f[2] || f[1] != seq![
                '=',
                '>',
            ]
        }),
    ensures
        listed_paths(line) == Seq::<Seq<char>>::empty(),
{
    lemma_one_line(line);
    assert(seq![line].drop_last() =~= Seq::<Seq<char>>::empty());
    assert(Seq::<Seq<char>>::empty() + Seq::<Seq<char>>::empty() =~= Seq::<Seq<char>>::empty());
    reveal_with_fuel(paths_of_lines, 2);
}

fn is_blank_char(c: char) -> (r: bool)
    ensures
        r == is_blank(c),
{
    let v = c as u32;
    (9 <= v && v <= 13) || v == 32 || v == 0x85 || v == 0xa0 || v == 0x1680 || (0x2000 <= v
        && v <= 0x200a) || v == 0x2028 || v == 0x2029 || v == 0x202f || v == 0x205f || v == 0x3000
}

/// The path named by the line whose fields are the given spans of `input`.
fn line_dependency(input: &str, spans: &Vec<(usize, usize)>) -> (r: Option<String>)
    requires
        spans_within(spans@, input@.len() as int),
    ensures
        match r {
            Some(p) => dependency_of(span_texts(input@, spans@)) == Some(p@),
            None => dependency_of(span_texts(input@, spans@)) is None,
        },
{
    let ghost f = span_texts(input@, spans@);
    if spans.len() != 4 {
        return None;
    }
    let (a0, b0) = spans[0];
    let (a1, b1) = spans[1];
    let (a2, b2) = spans[2];
    assert(spans@[0].0 < spans@[0].1 && spans@[1].0 < spans@[1].1 && spans@[2].0 < spans@[2].1);
    let name = input.substring_char(a0, b0).to_owned();
    let path = input.substring_char(a2, b2).to_owned();
    assert(f[0] == name@ && f[2] == path@);
    if name == path {
        return None;
    }
    if b2 - a2 == 0 {
        return None;
    }
    if !(b1 - a1 == 2 && input.get_char(a1) == '=' && input.get_char(a1 + 1) == '>') {
        assert(f[1].len() != 2 || f[1][0] != '=' || f[1][1] != '>');
        assert(f[1] != seq!['=', '>']);
        return None;
    }
    assert(f[1] =~= seq!['=', '>']);
    if input.get_char(a2) == '(' {
        return None;
    }
    Some(path)
}

/// The paths that the loader's listing names, in order: of each line of four
/// blank-separated fields `name => path address` whose path is not empty,
/// does not start with `(` and differs from the name, the path. Other lines
/// (the loader's own entry, a library listed only by its address) name none.
pub fn parse_interp(input: &str) -> (r: Vec<String>)
    ensures
        r@.map_values(|p: String| p@) == listed_paths(input@),
{
    let n = input.unicode_len();
    let mut paths: Vec<String> = Vec::new();
    let mut fields: Vec<(usize, usize)> = Vec::new();
    let mut after_blank = true;
    let mut i: usize = 0;
    proof {
        assert(input@.subrange(0, 0) =~= Seq::<char>::empty());
        assert(paths@.map_values(|p: String| p@) =~= Seq::<Seq<char>>::empty());
        assert(span_texts(input@, fields@) =~= Seq::<Seq<char>>::empty());
    }
    while i < n
        invariant
            n == input@.len(),
            i <= n,
            lines_of(input@.subrange(0, i as int)).len() > 0,
            paths@.map_values(|p: String| p@) == paths_of_lines(
                lines_of(input@.subrange(0, i as int)).drop_last(),
            ),
            span_texts(input@, fields@) == fields_of(lines_of(input@.subrange(0, i as int)).last()),
            spans_within(fields@, i as int),
            after_blank == (lines_of(input@.subrange(0, i as int)).last().len() == 0 || is_blank(
                lines_of(input@.subrange(0, i as int)).last().last(),
            )),
            !after_blank ==> fields@.len() > 0 && fields@.last().1 == i,
        decreases n - i,
    {
        let c = input.get_char(i);
        let ghost pre = input@.subrange(0, i as int);
        let ghost ls = lines_of(pre);
        let ghost line = ls.last();
        let ghost next = input@.subrange(0, i + 1);
        proof {
            assert(next.drop_last() =~= pre);
            assert(next.last() == c);
            assert(line.push(c).drop_last() =~= line);
        }
        if c == '\n' {
            let found = line_dependency(input, &fields);
            let ghost before = paths@;
            match found {
                Some(p) => {
                    paths.push(p);
                },
                None => {},
            }
            proof {
                let ls2 = lines_of(next);
                assert(ls2 == ls.push(Seq::<char>::empty()));
                assert(ls2.drop_last() =~= ls);
                assert(paths@.map_values(|p: String| p@) =~= before.map_values(|p: String| p@)
                    + line_paths(line));
            }
            fields = Vec::new();
            after_blank = true;
            proof {
                assert(span_texts(input@, fields@) =~= Seq::<Seq<char>>::empty());
            }
        } else {
            let ghost old_fields = fields@;
            let blank = is_blank_char(c);
            if blank {
                after_blank = true;
            } else if after_blank {
                fields.push((i, i + 1));
                after_blank = false;
                proof {
                    assert(input@.subrange(i as int, i + 1) =~= seq![c]);
                    assert(span_texts(input@, fields@) =~= span_texts(input@, old_fields).push(
                        seq![c],
                    ));
                }
            } else {
                let last = fields.len() - 1;
                let (a, b) = fields[last];
                fields.set(last, (a, i + 1));
                proof {
                    assert(input@.subrange(a as int, i + 1) =~= input@.subrange(
                        a as int,
                        i as int,
                    ).push(c));
                    let old_texts = span_texts(input@, old_fields);
                    assert(span_texts(input@, fields@) =~= old_texts.update(
                        old_texts.len() - 1,
                        old_texts.last().push(c),
                    ));
                }
            }
            proof {
                let ls2 = lines_of(next);
                assert(ls2 == ls.update(ls.len() - 1, line.push(c)));
                assert(ls2.drop_last() =~= ls.drop_last());
                assert(ls2.last() == line.push(c));
                assert forall|k: int| 0 <= k < fields@.len() implies (#[trigger] fields@[k]).0
                    < fields@[k].1 && fields@[k].1 <= i + 1 by {
                    if k < old_fields.len() && k != fields@.len() - 1 {
                        assert(fields@[k] == old_fields[k]);
                    }
                }
            }
        }
        i = i + 1;
    }
    let found = line_dependency(input, &fields);
    let ghost before = paths@;
    match found {
        Some(p) => {
            paths.push(p);
        },
        None => {},
    }
    proof {
        let ls = lines_of(input@.subrange(0, n as int));
        assert(input@.subrange(0, n as int) =~= input@);
        assert(ls.drop_last().push(ls.last()) =~= ls);
        assert(paths@.map_values(|p: String| p@) =~= before.map_values(|p: String| p@)
            + line_paths(ls.last()));
    }
    paths
}

} // verus!
