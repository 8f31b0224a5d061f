use vstd::prelude::*;

use crate::text::{chars_of, texts};

verus! {

/// The pieces of `s` between line feeds: one more than the line feeds in `s`.
pub open spec fn split_pieces(s: Seq<char>) -> Seq<Seq<char>>
    decreases s.len(),
{
    if s.len() == 0 {
        seq![seq![]]
    } else {
        let p = split_pieces(s.drop_last());
        if s.last() == '\n' {
            p.push(seq![])
        } else {
            p.update(p.len() - 1, p.last().push(s.last()))
        }
    }
}

/// A line that was ended by a line feed loses one carriage return before it.
pub open spec fn strip_cr(line: Seq<char>) -> Seq<char> {
    if line.len() > 0 && line.last() == '\r' {
        line.drop_last()
    } else {
        line
    }
}

/// The lines of `s`: split at line feeds, a carriage return just before a
/// line feed dropped, and no empty last line after a final line feed.
pub open spec fn lines_of(s: Seq<char>) -> Seq<Seq<char>> {
    let p = split_pieces(s);
    let ended = p.drop_last().map_values(|l: Seq<char>| strip_cr(l));
    if p.last().len() > 0 {
        ended.push(p.last())
    } else {
        ended
    }
}

/// `line` starts with `./`.
pub open spec fn has_dot_slash(line: Seq<char>) -> bool {
    line.len() >= 2 && line[0] == '.' && line[1] == '/'
}

/// `line` with every leading `./` removed.
pub open spec fn strip_dot_slash(line: Seq<char>) -> Seq<char>
    decreases line.len(),
{
    if has_dot_slash(line) {
        strip_dot_slash(line.subrange(2, line.len() as int))
    } else {
        line
    }
}

/// Each entry with its leading `./` removed.
pub open spec fn normalized(entries: Seq<Seq<char>>) -> Seq<Seq<char>> {
    entries.map_values(|e: Seq<char>| strip_dot_slash(e))
}

/// The scope entries read from the text of a scope file.
pub open spec fn scope_entries(text: Seq<char>) -> Seq<Seq<char>> {
    normalized(lines_of(text))
}

/// Each entry followed by a line feed.
pub open spec fn terminated(entries: Seq<Seq<char>>) -> Seq<char>
    decreases entries.len(),
{
    if entries.len() == 0 {
        seq![]
    } else {
        terminated(entries.drop_last()) + entries.last() + "\n"@
    }
}

/// The text of a scope file: entries joined by line feeds, then a line feed.
pub open spec fn scope_file_text(entries: Seq<Seq<char>>) -> Seq<char> {
    if entries.len() == 0 {
        "\n"@
    } else {
        terminated(entries)
    }
}

/// The entries typed before the first empty line.
pub open spec fn entries_before_blank(lines: Seq<Seq<char>>) -> Seq<Seq<char>>
    decreases lines.len(),
{
    if lines.len() == 0 {
        seq![]
    } else if lines[0].len() == 0 {
        seq![]
    } else {
        seq![lines[0]] + entries_before_blank(lines.drop_first())
    }
}

fn substring_text(s: &str, from: usize, to: usize) -> (r: String)
    requires
        from <= to <= s@.len(),
    ensures
        r@ == s@.subrange(from as int, to as int),
{
    String::from_str(s.substring_char(from, to))
}

/// The lines of `content`, as `str::lines` gives them.
pub fn split_lines(content: &str) -> (r: Vec<String>)
    ensures
        texts(r@) == lines_of(content@),
{
    let cs = chars_of(content);
    let n: usize = cs.len();
    let mut done: Vec<String> = Vec::new();
    let mut start: usize = 0;
    let mut i: usize = 0;
    proof {
        assert(content@.subrange(0, 0) =~= Seq::<char>::empty());
    }
    while i < n
        invariant
            cs@ == content@,
            n == cs@.len(),
            start <= i <= n,
            split_pieces(content@.subrange(0, i as int)).len() >= 1,
            split_pieces(content@.subrange(0, i as int)).last() == content@.subrange(
                start as int,
                i as int,
            ),
            texts(done@) == split_pieces(content@.subrange(0, i as int)).drop_last().map_values(
                |l: Seq<char>| strip_cr(l),
            ),
        decreases n - i,
    {
        let ghost prefix = content@.subrange(0, i as int);
        let ghost next = content@.subrange(0, i + 1);
        proof {
            assert(next.drop_last() =~= prefix);
            lemma_pieces_facts(prefix);
        }
        if cs[i] == '\n' {
            let end: usize = if i > start && cs[i - 1] == '\r' {
                i - 1
            } else {
                i
            };
            let piece = substring_text(content, start, end);
            proof {
                let p = split_pieces(prefix);
                assert(strip_cr(p.last()) =~= piece@);
            }
            let ghost before = done@;
            done.push(piece);
            proof {
                let p = split_pieces(prefix);
                assert(texts(done@) =~= texts(before).push(piece@));
                assert(p.drop_last().push(p.last()) =~= p);
                assert(p.map_values(|l: Seq<char>| strip_cr(l)) =~= p.drop_last().map_values(
                    |l: Seq<char>| strip_cr(l),
                ).push(strip_cr(p.last())));
                assert(split_pieces(next) == p.push(seq![]));
                assert(split_pieces(next).drop_last() =~= p);
                assert(texts(done@) =~= p.map_values(|l: Seq<char>| strip_cr(l)));
                assert(content@.subrange(i + 1, i + 1) =~= Seq::<char>::empty());
            }
            start = i + 1;
        } else {
            proof {
                let p = split_pieces(prefix);
                assert(split_pieces(next) == p.update(p.len() - 1, p.last().push(content@[i as int])));
                assert(split_pieces(next).drop_last() =~= p.drop_last());
                assert(content@.subrange(start as int, i + 1) =~= p.last().push(content@[i as int]));
            }
        }
        i = i + 1;
    }
    proof {
        assert(content@.subrange(0, n as int) =~= content@);
    }
    if start < n {
        let last = substring_text(content, start, n);
        done.push(last);
        proof {
            assert(texts(done@) =~= lines_of(content@));
        }
    } else {
        proof {
            assert(texts(done@) =~= lines_of(content@));
        }
    }
    done
}

/// `line` with every leading `./` removed, as `trim_start_matches("./")` does.
pub fn strip_leading_dot_slash(line: &str) -> (r: String)
    ensures
        r@ == strip_dot_slash(line@),
{
    let cs = chars_of(line);
    let n: usize = cs.len();
    let mut k: usize = 0;
    assert(line@.subrange(0, n as int) =~= line@);
    loop
        invariant
            cs@ == line@,
            n == cs@.len(),
            k <= n,
            strip_dot_slash(line@.subrange(k as int, n as int)) == strip_dot_slash(line@),
        ensures
            k <= n,
            line@.subrange(k as int, n as int) == strip_dot_slash(line@),
        decreases n - k,
    {
        let ghost rest = line@.subrange(k as int, n as int);
        if n - k < 2 || cs[k] != '.' || cs[k + 1] != '/' {
            proof {
                assert(!has_dot_slash(rest));
                assert(strip_dot_slash(rest) == rest);
            }
            break;
        }
        proof {
            assert(has_dot_slash(rest));
            assert(rest.subrange(2, rest.len() as int) =~= line@.subrange(k + 2, n as int));
        }
        k = k + 2;
    }
    substring_text(line, k, n)
}

/// Each entry with its leading `./` removed, order kept.
pub fn normalize_entries(entries: &Vec<String>) -> (r: Vec<String>)
    ensures
        texts(r@) == normalized(texts(entries@)),
{
    let mut r: Vec<String> = Vec::new();
    let mut i: usize = 0;
    while i < entries.len()
        invariant
            i <= entries@.len(),
            texts(r@) == normalized(texts(entries@.subrange(0, i as int))),
        decreases entries@.len() - i,
    {
        let e = strip_leading_dot_slash(entries[i].as_str());
        let ghost before = r@;
        r.push(e);
        proof {
            assert(texts(r@) =~= texts(before).push(e@));
            assert(normalized(texts(entries@.subrange(0, i + 1))) =~= normalized(
                texts(entries@.subrange(0, i as int)),
            ).push(e@));
        }
        i = i + 1;
    }
    assert(entries@.subrange(0, entries@.len() as int) =~= entries@);
    r
}

/// The scope entries held in the text of an existing scope file.
pub fn load_scope(content: &str) -> (r: Vec<String>)
    ensures
        texts(r@) == scope_entries(content@),
{
    let lines = split_lines(content);
    normalize_entries(&lines)
}

/// The text written to the scope file: the entries joined by line feeds,
/// followed by a line feed.
pub fn render_scope(entries: &Vec<String>) -> (r: String)
    ensures
        r@ == scope_file_text(texts(entries@)),
{
    if entries.len() == 0 {
        return String::from_str("\n");
    }
    let mut out = String::new();
    let mut i: usize = 0;
    while i < entries.len()
        invariant
            i <= entries@.len(),
            out@ == terminated(texts(entries@.subrange(0, i as int))),
        decreases entries@.len() - i,
    {
        out.append(entries[i].as_str());
        out.append("\n");
        proof {
            let ts = texts(entries@.subrange(0, i + 1));
            assert(ts.drop_last() =~= texts(entries@.subrange(0, i as int)));
        }
        i = i + 1;
    }
    assert(entries@.subrange(0, entries@.len() as int) =~= entries@);
    out
}

/// Takes one typed scope line: an empty line ends the input, any other line
/// is appended to the entries. Returns whether more lines are wanted.
pub fn accept_scope_line(entries: &mut Vec<String>, line: String) -> (more: bool)
    ensures
        more == (line@.len() > 0),
        more ==> final(entries)@ == old(entries)@.push(line),
        !more ==> final(entries)@ == old(entries)@,
{
    if line.as_str().is_empty() {
        false
    } else {
        entries.push(line);
        true
    }
}

/// The scope entries given by a sequence of typed lines: those before the
/// first empty line.
pub fn collect_scope(lines: &Vec<String>) -> (r: Vec<String>)
    ensures
        texts(r@) == entries_before_blank(texts(lines@)),
{
    let mut r: Vec<String> = Vec::new();
    let mut i: usize = 0;
    proof {
        assert(lines@.subrange(0, lines@.len() as int) =~= lines@);
        assert(texts(r@) + entries_before_blank(texts(lines@)) =~= entries_before_blank(
            texts(lines@),
        ));
    }
    while i < lines.len()
        invariant
            i <= lines@.len(),
            texts(r@) + entries_before_blank(texts(lines@.subrange(i as int, lines@.len() as int)))
                == entries_before_blank(texts(lines@)),
        decreases lines@.len() - i,
    {
        let ghost rest = texts(lines@.subrange(i as int, lines@.len() as int));
        let ghost before = r@;
        proof {
            assert(rest[0] == lines@[i as int]@);
            assert(rest.drop_first() =~= texts(lines@.subrange(i + 1, lines@.len() as int)));
        }
        if !accept_scope_line(&mut r, lines[i].clone()) {
            proof {
                assert(entries_before_blank(rest) =~= Seq::<Seq<char>>::empty());
            }
            return r;
        }
        proof {
            assert(texts(r@) =~= texts(before).push(lines@[i as int]@));
            assert(texts(r@) + entries_before_blank(rest.drop_first()) =~= texts(before)
                + entries_before_blank(rest));
        }
        i = i + 1;
    }
    proof {
        assert(texts(lines@.subrange(i as int, lines@.len() as int)) =~= Seq::<Seq<char>>::empty());
        assert(texts(r@) + Seq::<Seq<char>>::empty() =~= texts(r@));
    }
    r
}

proof fn lemma_stripped_has_no_prefix(line: Seq<char>)
    ensures
        !has_dot_slash(strip_dot_slash(line)),
    decreases line.len(),
{
    if has_dot_slash(line) {
        lemma_stripped_has_no_prefix(line.subrange(2, line.len() as int));
    }
}

/// Normalizing scope entries twice gives what normalizing once gives, and
/// entries without a leading `./` are left exactly as they are.
pub proof fn lemma_normalize_idempotent(entries: Seq<Seq<char>>)
    ensures
        normalized(normalized(entries)) == normalized(entries),
        (forall|i: int| 0 <= i < entries.len() ==> !has_dot_slash(#[trigger] entries[i]))
            ==> normalized(entries) == entries,
{
    assert forall|i: int| 0 <= i < entries.len() implies strip_dot_slash(
        #[trigger] strip_dot_slash(entries[i]),
    ) == strip_dot_slash(entries[i]) by {
        lemma_stripped_has_no_prefix(entries[i]);
    }
    assert(normalized(normalized(entries)) =~= normalized(entries));
    if forall|i: int| 0 <= i < entries.len() ==> !has_dot_slash(#[trigger] entries[i]) {
        assert(normalized(entries) =~= entries);
    }
}

/// No carriage return stands just before a line feed in `s`.
pub open spec fn no_crlf(s: Seq<char>) -> bool {
    forall|i: int| 1 <= i < s.len() && #[trigger] s[i] == '\n' ==> s[i - 1] != '\r'
}

proof fn lemma_pieces_facts(s: Seq<char>)
    ensures
        split_pieces(s).len() >= 1,
        split_pieces(s).last().len() <= s.len(),
        split_pieces(s).last() == s.subrange(s.len() - split_pieces(s).last().len(), s.len() as int),
        terminated(split_pieces(s).drop_last()) + split_pieces(s).last() == s,
        s.len() > 0 && s.last() == '\n' ==> split_pieces(s).last().len() == 0,
        no_crlf(s) ==> forall|j: int|
            0 <= j < split_pieces(s).len() - 1 ==> strip_cr(#[trigger] split_pieces(s)[j])
                == split_pieces(s)[j],
    decreases s.len(),
{
    reveal_strlit("\n");
    if s.len() == 0 {
        assert(terminated(split_pieces(s).drop_last()) + split_pieces(s).last() =~= s);
    } else {
        let t = s.drop_last();
        lemma_pieces_facts(t);
        let p = split_pieces(t);
        let c = s.last();
        assert(s =~= t.push(c));
        if c == '\n' {
            assert(split_pieces(s).drop_last() =~= p);
            assert(terminated(p) == terminated(p.drop_last()) + p.last() + "\n"@);
            assert(terminated(split_pieces(s).drop_last()) + split_pieces(s).last() =~= s);
            assert(split_pieces(s).last() =~= s.subrange(s.len() as int, s.len() as int));
            if no_crlf(s) {
                assert(no_crlf(t)) by {
                    assert forall|i: int| 1 <= i < t.len() && #[trigger] t[i] == '\n' implies t[i
                        - 1] != '\r' by {
                        assert(s[i] == t[i]);
                    }
                }
                assert forall|j: int| 0 <= j < split_pieces(s).len() - 1 implies strip_cr(
                    #[trigger] split_pieces(s)[j],
                ) == split_pieces(s)[j] by {
                    if j < p.len() - 1 {
                        assert(split_pieces(s)[j] == p[j]);
                    } else {
                        assert(split_pieces(s)[j] == p.last());
                        if p.last().len() > 0 {
                            assert(p.last().last() == t.last());
                            assert(s[s.len() - 1] == '\n');
                            assert(s[s.len() - 2] == t.last());
                        }
                    }
                }
            }
        } else {
            let q = p.update(p.len() - 1, p.last().push(c));
            assert(split_pieces(s) == q);
            assert(q.drop_last() =~= p.drop_last());
            assert(q.last() =~= s.subrange(s.len() - q.last().len(), s.len() as int));
            assert(terminated(q.drop_last()) + q.last() =~= s);
            if no_crlf(s) {
                assert(no_crlf(t)) by {
                    assert forall|i: int| 1 <= i < t.len() && #[trigger] t[i] == '\n' implies t[i
                        - 1] != '\r' by {
                        assert(s[i] == t[i]);
                    }
                }
                assert forall|j: int| 0 <= j < q.len() - 1 implies strip_cr(#[trigger] q[j])
                    == q[j] by {
                    assert(q[j] == p[j]);
                }
            }
        }
    }
}

/// Loading a scope file whose lines carry no leading `./` (and no carriage
/// return before a line feed) and writing it back yields its text again,
/// with a line feed added when it did not end in one.
pub proof fn lemma_reload_reproduces_text(text: Seq<char>)
    requires
        no_crlf(text),
        forall|i: int| 0 <= i < lines_of(text).len() ==> !has_dot_slash(#[trigger] lines_of(text)[i]),
    ensures
        scope_file_text(scope_entries(text)) == if text.len() > 0 && text.last() == '\n' {
            text
        } else {
            text + "\n"@
        },
{
    reveal_strlit("\n");
    lemma_pieces_facts(text);
    lemma_normalize_idempotent(lines_of(text));
    let p = split_pieces(text);
    let ended = p.drop_last();
    assert(ended.map_values(|l: Seq<char>| strip_cr(l)) =~= ended);
    let lines = lines_of(text);
    assert(scope_entries(text) == lines);
    if p.last().len() > 0 {
        assert(lines == ended.push(p.last()));
        assert(lines.drop_last() =~= ended);
        assert(terminated(lines) == terminated(ended) + p.last() + "\n"@);
        assert(text.last() == p.last().last());
    } else if ended.len() == 0 {
        assert(lines.len() == 0);
        assert(text =~= terminated(ended) + p.last());
        assert(text.len() == 0);
        assert(text + "\n"@ =~= "\n"@);
    } else {
        assert(lines == ended);
        assert(terminated(ended) + p.last() =~= terminated(ended));
        assert(terminated(ended) == terminated(ended.drop_last()) + ended.last() + "\n"@);
        assert(text.last() == '\n');
    }
}

} // verus!
