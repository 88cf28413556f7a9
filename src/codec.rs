use vstd::prelude::*;
use crate::todo::{Todo, TodoView, marker_of, views};

verus! {

/// `k` is the position of the first `c` in `s`.
pub open spec fn is_first(s: Seq<char>, c: char, k: int) -> bool {
    &&& 0 <= k < s.len()
    &&& s[k] == c
    &&& forall|j: int| 0 <= j < k ==> s[j] != c
}

/// The lines of a text: the pieces between newlines, where a last piece
/// with no newline after it counts as a line and a final newline opens none.
pub open spec fn lines_of(t: Seq<char>) -> Seq<Seq<char>>
    decreases t.len(),
{
    if t.len() == 0 {
        seq![]
    } else if exists|k: int| is_first(t, '\n', k) {
        let k = choose|k: int| is_first(t, '\n', k);
        seq![t.take(k)] + lines_of(t.skip(k + 1))
    } else {
        seq![t]
    }
}

/// A stored line read back as a todo: it is split at its first `:`; the
/// part before is the marker (only `X` means completed) and the part after
/// is the content. A line without `:` is malformed.
pub open spec fn parse_line(line: Seq<char>) -> Option<TodoView> {
    if exists|k: int| is_first(line, ':', k) {
        let k = choose|k: int| is_first(line, ':', k);
        Some(TodoView { completed: line.take(k) == seq!['X'], content: line.skip(k + 1) })
    } else {
        None
    }
}

/// The todos that the well-formed lines among `ls` stand for, in order.
pub open spec fn parsed(ls: Seq<Seq<char>>) -> Seq<TodoView>
    decreases ls.len(),
{
    if ls.len() == 0 {
        seq![]
    } else {
        match parse_line(ls[0]) {
            Some(v) => seq![v] + parsed(ls.drop_first()),
            None => parsed(ls.drop_first()),
        }
    }
}

/// How many lines among `ls` are malformed.
pub open spec fn malformed(ls: Seq<Seq<char>>) -> nat
    decreases ls.len(),
{
    if ls.len() == 0 {
        0
    } else {
        match parse_line(ls[0]) {
            Some(_) => malformed(ls.drop_first()),
            None => 1 + malformed(ls.drop_first()),
        }
    }
}

/// The stored line of one todo, newline included: `<marker>:<content>\n`.
pub open spec fn encode_line(v: TodoView) -> Seq<char> {
    marker_of(v.completed) + seq![':'] + v.content + seq!['\n']
}

/// The stored text of a list of todos: their lines, one after another.
pub open spec fn encode_all(s: Seq<TodoView>) -> Seq<char> {
    s.map_values(|v: TodoView| encode_line(v)).flatten()
}

/// The characters of a string, in order.
pub(crate) fn chars_of(s: &str) -> (r: Vec<char>)
    ensures
        r@ == s@,
{
    let mut out: Vec<char> = Vec::new();
    for c in it: s.chars()
        invariant
            out@ == it.seq().take(it.index() as int),
    {
        out.push(c);
    }
    out
}

/// Writes each todo as one line `<marker>:<content>\n`, in list order.
pub fn encode(todos: &Vec<Todo>) -> (r: String)
    ensures
        r@ == encode_all(views(todos@)),
{
    let mut out = String::new();
    let mut i: usize = 0;
    while i < todos.len()
        invariant
            i <= todos.len(),
            out@ == views(todos@).take(i as int).map_values(|v: TodoView| encode_line(v)).flatten_alt(),
        decreases todos.len() - i,
    {
        let t = &todos[i];
        proof {
            reveal_strlit(":");
            reveal_strlit("\n");
            assert(":"@ =~= seq![':']);
            assert("\n"@ =~= seq!['\n']);
        }
        let ghost before = out@;
        out.append(t.completed_str());
        out.append(":");
        out.append(t.content.as_str());
        out.append("\n");
        proof {
            let f = |v: TodoView| encode_line(v);
            let s = views(todos@);
            let a = s.take(i as int).map_values(f);
            let b = s.take(i + 1).map_values(f);
            assert(b.drop_last() =~= a);
            assert(b.last() == encode_line(t@));
            assert(out@ =~= before + encode_line(t@));
            assert(b.flatten_alt() == a.flatten_alt() + b.last());
        }
        i += 1;
    }
    proof {
        let s = views(todos@);
        assert(s.take(todos.len() as int) =~= s);
        s.map_values(|v: TodoView| encode_line(v)).lemma_flatten_and_flatten_alt_are_equivalent();
    }
    out
}

/// What reading a stored text gives: the todos of its well-formed lines, in
/// file order, and how many malformed lines were passed over.
pub struct Decoded {
    pub todos: Vec<Todo>,
    pub skipped: usize,
}

/// Reads the line `text[start..end]`, whose characters are `chars[start..end]`.
fn decode_line(text: &str, chars: &Vec<char>, start: usize, end: usize) -> (r: Option<Todo>)
    requires
        chars@ == text@,
        start <= end <= chars.len(),
    ensures
        match r {
            Some(t) => parse_line(text@.subrange(start as int, end as int)) == Some(t@),
            None => parse_line(text@.subrange(start as int, end as int)) is None,
        },
{
    let ghost line = text@.subrange(start as int, end as int);
    let mut k: usize = start;
    while k < end && chars[k] != ':'
        invariant
            start <= k <= end <= chars.len(),
            forall|j: int| start <= j < k ==> chars@[j] != ':',
        decreases end - k,
    {
        k += 1;
    }
    if k == end {
        assert(!exists|j: int| is_first(line, ':', j)) by {
            assert forall|j: int| 0 <= j < line.len() implies line[j] != ':' by {
                assert(line[j] == chars@[start + j]);
            }
        }
        None
    } else {
        let completed = k == start + 1 && chars[start] == 'X';
        let content = text.substring_char(k + 1, end).to_owned();
        proof {
            let p = (k - start) as int;
            assert(is_first(line, ':', p));
            let q = choose|q: int| is_first(line, ':', q);
            assert(q == p) by {
                if q < p {
                    assert(line[q] == chars@[start + q]);
                }
            }
            assert(content@ =~= line.skip(p + 1));
            if completed {
                assert(line.take(p) =~= seq!['X']);
            } else if p == 1 {
                assert(line.take(p)[0] != seq!['X'][0]);
            } else {
                assert(line.take(p).len() != seq!['X'].len());
            }
        }
        Some(Todo { completed, content })
    }
}

/// Reads a stored text back into todos, one per line in file order. A line
/// without `:` is malformed: it is passed over and counted, and reading goes
/// on with the lines after it.
pub fn decode(text: &str) -> (r: Decoded)
    ensures
        views(r.todos@) == parsed(lines_of(text@)),
        r.skipped == malformed(lines_of(text@)),
{
    let chars = chars_of(text);
    let n = chars.len();
    let mut todos: Vec<Todo> = Vec::new();
    let mut skipped: usize = 0;
    let mut start: usize = 0;
    let mut i: usize = 0;
    proof {
        assert(text@.skip(0) =~= text@);
        assert(views(todos@) + parsed(lines_of(text@)) =~= parsed(lines_of(text@)));
    }
    while i < n
        invariant
            chars@ == text@,
            n == chars.len(),
            start <= i <= n,
            skipped <= start,
            forall|j: int| start <= j < i ==> chars@[j] != '\n',
            parsed(lines_of(text@)) == views(todos@) + parsed(lines_of(text@.skip(start as int))),
            malformed(lines_of(text@)) == skipped + malformed(lines_of(text@.skip(start as int))),
        decreases n - i,
    {
        if chars[i] == '\n' {
            let parsed_line = decode_line(text, &chars, start, i);
            proof {
                let u = text@.skip(start as int);
                let p = (i - start) as int;
                assert(u[p] == chars@[i as int]);
                assert(is_first(u, '\n', p));
                let q = choose|q: int| is_first(u, '\n', q);
                assert(q == p) by {
                    if q < p {
                        assert(u[q] == chars@[start + q]);
                    }
                }
                let rest = lines_of(text@.skip(i + 1));
                assert(u.skip(p + 1) =~= text@.skip(i + 1));
                assert(u.take(p) =~= text@.subrange(start as int, i as int));
                let ls = seq![u.take(p)] + rest;
                assert(lines_of(u) == ls);
                assert(ls.drop_first() =~= rest);
            }
            match parsed_line {
                Some(t) => {
                    let ghost before = views(todos@);
                    todos.push(t);
                    proof {
                        assert(views(todos@) =~= before.push(t@));
                        assert(before.push(t@) + parsed(lines_of(text@.skip(i + 1)))
                            =~= before + (seq![t@] + parsed(lines_of(text@.skip(i + 1)))));
                    }
                },
                None => {
                    skipped += 1;
                },
            }
            start = i + 1;
        }
        i += 1;
    }
    if start < n {
        let parsed_line = decode_line(text, &chars, start, n);
        proof {
            let u = text@.skip(start as int);
            assert(!exists|q: int| is_first(u, '\n', q)) by {
                assert forall|q: int| 0 <= q < u.len() implies u[q] != '\n' by {
                    assert(u[q] == chars@[start + q]);
                }
            }
            assert(u =~= text@.subrange(start as int, n as int));
            assert(lines_of(u) == seq![u]);
            assert(seq![u].drop_first() =~= Seq::<Seq<char>>::empty());
            assert(lines_of(Seq::<char>::empty()) == Seq::<Seq<char>>::empty());
            assert(seq![u][0] == u);
            assert(parsed(Seq::<Seq<char>>::empty()) == Seq::<TodoView>::empty());
            assert(malformed(Seq::<Seq<char>>::empty()) == 0);
        }
        match parsed_line {
            Some(t) => {
                let ghost before = views(todos@);
                todos.push(t);
                proof {
                    assert(views(todos@) =~= before.push(t@));
                    assert(seq![t@] + parsed(Seq::<Seq<char>>::empty()) =~= seq![t@]);
                }
            },
            None => {
                skipped += 1;
            },
        }
    } else {
        proof {
            assert(text@.skip(start as int) =~= Seq::<char>::empty());
            assert(lines_of(Seq::<char>::empty()) == Seq::<Seq<char>>::empty());
            assert(parsed(Seq::<Seq<char>>::empty()) == Seq::<TodoView>::empty());
            assert(malformed(Seq::<Seq<char>>::empty()) == 0);
            assert(views(todos@) + Seq::<TodoView>::empty() =~= views(todos@));
        }
    }
    Decoded { todos, skipped }
}

/// Reading back what `encode` writes gives the same todos, in the same order,
/// with no malformed line, whenever no content holds a newline.
pub proof fn lemma_round_trip(s: Seq<TodoView>)
    requires
        forall|i: int| 0 <= i < s.len() ==> !s[i].content.contains('\n'),
    ensures
        parsed(lines_of(encode_all(s))) == s,
        malformed(lines_of(encode_all(s))) == 0,
    decreases s.len(),
{
    let f = |v: TodoView| encode_line(v);
    let m = s.map_values(f);
    if s.len() == 0 {
        assert(m =~= Seq::<Seq<char>>::empty());
        assert(encode_all(s) =~= Seq::<char>::empty());
        assert(lines_of(Seq::<char>::empty()) == Seq::<Seq<char>>::empty());
        assert(parsed(Seq::<Seq<char>>::empty()) =~= s);
    } else {
        let v = s[0];
        let tail = s.drop_first();
        assert(m.drop_first() =~= tail.map_values(f));
        lemma_round_trip(tail);
        let r = encode_all(tail);
        let body = marker_of(v.completed) + seq![':'] + v.content;
        let t = encode_line(v) + r;
        assert(encode_all(s) == t);
        let k = body.len() as int;
        assert forall|j: int| 0 <= j < k implies body[j] != '\n' by {
            if j >= 2 {
                assert(body[j] == v.content[j - 2]);
            }
        }
        assert(t[k] == '\n');
        assert(is_first(t, '\n', k)) by {
            assert forall|j: int| 0 <= j < k implies t[j] != '\n' by {
                assert(t[j] == body[j]);
            }
        }
        let q = choose|q: int| is_first(t, '\n', q);
        assert(q == k) by {
            if q < k {
                assert(t[q] == body[q]);
            }
        }
        assert(t.take(k) =~= body);
        assert(t.skip(k + 1) =~= r);
        let ls = seq![body] + lines_of(r);
        assert(lines_of(t) == ls);
        assert(ls[0] == body);
        assert(ls.drop_first() =~= lines_of(r));
        assert(is_first(body, ':', 1));
        let p = choose|p: int| is_first(body, ':', p);
        assert(p == 1) by {
            if p < 1 {
                assert(body[0] != ':');
            }
        }
        assert(body.take(1) =~= marker_of(v.completed));
        if !v.completed {
            assert(marker_of(v.completed)[0] != seq!['X'][0]);
        }
        assert(body.skip(2) =~= v.content);
        assert(parse_line(body) == Some(v));
        assert(seq![v] + tail =~= s);
    }
}

} // verus!
