//! Line-level differences between two texts, and the answers they give.

use vstd::prelude::*;
use similar::{ChangeTag, TextDiff};
use crate::normalize::{normalize, Normalizer};
use crate::text::{chars_of, string_of};

verus! {

/// What a diff says of one line.
#[derive(Clone, Copy, Debug, PartialEq, Eq, Structural)]
pub enum ChangeKind {
    Delete,
    Insert,
    Equal,
}

/// One line of a diff with its line terminator, if it had one.
pub struct LineChange {
    pub kind: ChangeKind,
    pub text: String,
}

/// A change to hand to the scoring executable: the answer and whether the
/// datum went away.
pub struct Answer {
    pub text: String,
    pub removed: bool,
}

impl View for Answer {
    type V = (Seq<char>, bool);

    open spec fn view(&self) -> (Seq<char>, bool) {
        (self.text@, self.removed)
    }
}

pub open spec fn ends_open(l: Seq<char>) -> bool {
    l.last() != '\n' && l.last() != '\r'
}

/// The lines of `s`, each with its terminator: `\n`, `\r\n` or a lone `\r`.
pub open spec fn split_lines(s: Seq<char>) -> Seq<Seq<char>>
    decreases s.len(),
{
    if s.len() == 0 {
        seq![]
    } else {
        let p = split_lines(s.drop_last());
        let c = s.last();
        if c == '\n' && p.len() > 0 && p.last().len() > 0 && p.last().last() == '\r' {
            p.update(p.len() - 1, p.last().push(c))
        } else if p.len() > 0 && p.last().len() > 0 && ends_open(p.last()) {
            p.update(p.len() - 1, p.last().push(c))
        } else {
            p.push(seq![c])
        }
    }
}

/// The lines of the old text that a diff walks through, in order.
pub open spec fn old_side(cs: Seq<LineChange>) -> Seq<Seq<char>>
    decreases cs.len(),
{
    if cs.len() == 0 {
        seq![]
    } else if cs.last().kind != ChangeKind::Insert {
        old_side(cs.drop_last()).push(cs.last().text@)
    } else {
        old_side(cs.drop_last())
    }
}

/// The lines of the new text that a diff walks through, in order.
pub open spec fn new_side(cs: Seq<LineChange>) -> Seq<Seq<char>>
    decreases cs.len(),
{
    if cs.len() == 0 {
        seq![]
    } else if cs.last().kind != ChangeKind::Delete {
        new_side(cs.drop_last()).push(cs.last().text@)
    } else {
        new_side(cs.drop_last())
    }
}

/// `cs` is a line diff of `old` into `new`: deleted and kept lines spell the
/// old text, inserted and kept lines the new one, and equal texts keep
/// every line.
pub open spec fn is_line_diff(cs: Seq<LineChange>, old: Seq<char>, new: Seq<char>) -> bool {
    &&& old_side(cs) == split_lines(old)
    &&& new_side(cs) == split_lines(new)
    &&& old == new ==> forall|i: int| 0 <= i < cs.len() ==> (#[trigger] cs[i]).kind == ChangeKind::Equal
}

/// Relies on `similar::TextDiff::from_lines` and `iter_all_changes`: lines
/// are cut after `\n`, `\r\n` or a lone `\r`; the changes cover every line of
/// both texts in order, a kept line carrying its old text; Myers' algorithm
/// takes a common prefix whole, so equal texts give only kept lines.
#[verifier::external_body]
fn line_changes(old: &str, new: &str) -> (r: Vec<LineChange>)
    ensures
        is_line_diff(r@, old@, new@),
{
    TextDiff::from_lines(old, new).iter_all_changes().map(|c| LineChange {
        kind: match c.tag() {
            ChangeTag::Delete => ChangeKind::Delete,
            ChangeTag::Insert => ChangeKind::Insert,
            ChangeTag::Equal => ChangeKind::Equal,
        },
        text: c.value().to_string(),
    }).collect()
}

/// A line without its terminator.
pub open spec fn line_body(l: Seq<char>) -> Seq<char> {
    if l.len() >= 2 && l[l.len() - 2] == '\r' && l.last() == '\n' {
        l.subrange(0, l.len() - 2)
    } else if l.len() >= 1 && (l.last() == '\n' || l.last() == '\r') {
        l.drop_last()
    } else {
        l
    }
}

/// The pieces of `s` between occurrences of `sep`; there is always one more
/// piece than separators.
pub open spec fn split_on(s: Seq<char>, sep: char) -> Seq<Seq<char>>
    decreases s.len(),
{
    if s.len() == 0 {
        seq![seq![]]
    } else {
        let p = split_on(s.drop_last(), sep);
        if s.last() == sep {
            p.push(seq![])
        } else {
            p.update(p.len() - 1, p.last().push(s.last()))
        }
    }
}

pub proof fn lemma_split_on_len(s: Seq<char>, sep: char)
    ensures
        split_on(s, sep).len() >= 1,
    decreases s.len(),
{
    if s.len() > 0 {
        lemma_split_on_len(s.drop_last(), sep);
    }
}

pub open spec fn passwd_tag() -> Seq<char> {
    "/etc/passwd"@
}

pub open spec fn group_tag() -> Seq<char> {
    "/etc/group"@
}

/// The extra answers of a line of an identity database: the user name of a
/// `/etc/passwd` entry, or one `group:member` for each member listed in a
/// `/etc/group` entry, each followed by the tag.
pub open spec fn identity_answers(body: Seq<char>, tag: Seq<char>, identity: bool) -> Seq<Seq<char>> {
    if identity && tag == passwd_tag() {
        seq![split_on(body, ':')[0] + tag]
    } else if identity && tag == group_tag() && split_on(body, ':').len() >= 4 {
        let fields = split_on(body, ':');
        split_on(fields[3], ',').map_values(|u: Seq<char>| fields[0] + seq![':'] + u + tag)
    } else {
        seq![]
    }
}

/// The answers one line of a diff gives: none for a kept or empty line, else
/// the identity answers and then the canonical line, each with the tag and
/// the line's direction.
pub open spec fn change_answers(kind: ChangeKind, text: Seq<char>, tag: Seq<char>, identity: bool) -> Seq<(Seq<char>, bool)> {
    let body = line_body(text);
    let removed = kind == ChangeKind::Delete;
    if kind == ChangeKind::Equal || body.len() == 0 {
        seq![]
    } else {
        identity_answers(body, tag, identity).map_values(|a: Seq<char>| (a, removed)) + seq![(normalize(body) + tag, removed)]
    }
}

/// The answers of a whole diff, in the order of its lines.
pub open spec fn diff_answers(cs: Seq<LineChange>, tag: Seq<char>, identity: bool) -> Seq<(Seq<char>, bool)>
    decreases cs.len(),
{
    if cs.len() == 0 {
        seq![]
    } else {
        diff_answers(cs.drop_last(), tag, identity) + change_answers(cs.last().kind, cs.last().text@, tag, identity)
    }
}

pub open spec fn answers_view(v: Seq<Answer>) -> Seq<(Seq<char>, bool)> {
    v.map_values(|a: Answer| a@)
}

pub fn chars_eq(a: &Vec<char>, b: &Vec<char>) -> (r: bool)
    ensures
        r == (a@ == b@),
{
    if a.len() != b.len() {
        return false;
    }
    let mut i: usize = 0;
    while i < a.len()
        invariant
            i <= a.len() == b.len(),
            forall|k: int| 0 <= k < i ==> a@[k] == b@[k],
        decreases a.len() - i,
    {
        if a[i] != b[i] {
            return false;
        }
        i += 1;
    }
    assert(a@ =~= b@);
    true
}

/// Appends the characters of `src`.
pub fn append_chars(dst: &mut Vec<char>, src: &Vec<char>)
    ensures
        final(dst)@ == old(dst)@ + src@,
{
    let mut i: usize = 0;
    let ghost start = dst@;
    while i < src.len()
        invariant
            i <= src.len(),
            dst@ == start + src@.subrange(0, i as int),
        decreases src.len() - i,
    {
        dst.push(src[i]);
        i += 1;
        assert(dst@ =~= start + src@.subrange(0, i as int));
    }
    assert(src@.subrange(0, src.len() as int) =~= src@);
}

/// Cuts `s` at every `sep`.
pub fn split_chars(s: &Vec<char>, sep: char) -> (r: Vec<Vec<char>>)
    ensures
        r.deep_view() == split_on(s@, sep),
{
    let mut parts: Vec<Vec<char>> = Vec::new();
    let first: Vec<char> = Vec::new();
    assert(first@ =~= Seq::<char>::empty());
    parts.push(first);
    assert(parts.deep_view()[0] == parts@[0]@);
    let mut i: usize = 0;
    assert(s@.subrange(0, 0) =~= Seq::<char>::empty());
    assert(parts.deep_view() =~= split_on(s@.subrange(0, 0), sep));
    while i < s.len()
        invariant
            i <= s.len(),
            parts.deep_view() == split_on(s@.subrange(0, i as int), sep),
            parts.len() >= 1,
        decreases s.len() - i,
    {
        let c = s[i];
        let ghost cur = s@.subrange(0, i + 1);
        assert(cur.drop_last() =~= s@.subrange(0, i as int));
        let ghost before = parts.deep_view();
        let ghost raw = parts@;
        if c == sep {
            let empty: Vec<char> = Vec::new();
            assert(empty@ =~= Seq::<char>::empty());
            parts.push(empty);
            assert forall|k: int| 0 <= k < parts.len() implies parts.deep_view()[k] == before.push(seq![])[k] by {
                if k < parts.len() - 1 {
                    assert(parts@[k] == raw[k]);
                }
            }
            assert(parts.deep_view() =~= before.push(seq![]));
        } else {
            let mut last = parts.pop().unwrap();
            assert(last@ == before.last());
            last.push(c);
            parts.push(last);
            assert(parts@ == raw.drop_last().push(last));
            assert forall|k: int| 0 <= k < parts.len() implies parts.deep_view()[k] == before.update(before.len() - 1, before.last().push(c))[k] by {
                if k < parts.len() - 1 {
                    assert(parts@[k] == raw[k]);
                }
            }
            assert(parts.deep_view() =~= before.update(before.len() - 1, before.last().push(c)));
        }
        i += 1;
    }
    assert(s@.subrange(0, s.len() as int) =~= s@);
    parts
}

/// A line without its terminator.
pub fn line_body_chars(l: &Vec<char>) -> (r: Vec<char>)
    ensures
        r@ == line_body(l@),
{
    let n = l.len();
    let cut: usize = if n >= 2 && l[n - 2] == '\r' && l[n - 1] == '\n' {
        2
    } else if n >= 1 && (l[n - 1] == '\n' || l[n - 1] == '\r') {
        1
    } else {
        0
    };
    let mut out: Vec<char> = Vec::new();
    let mut i: usize = 0;
    while i < n - cut
        invariant
            cut <= n == l.len(),
            i <= n - cut,
            out@ == l@.subrange(0, i as int),
        decreases n - cut - i,
    {
        out.push(l[i]);
        i += 1;
        assert(out@ =~= l@.subrange(0, i as int));
    }
    assert(l@.subrange(0, n as int) =~= l@);
    out
}

/// `a + b + c` as a string.
fn join3(a: &Vec<char>, b: &Vec<char>, c: &Vec<char>) -> (r: String)
    ensures
        r@ == a@ + b@ + c@,
{
    let mut v: Vec<char> = Vec::new();
    append_chars(&mut v, a);
    append_chars(&mut v, b);
    append_chars(&mut v, c);
    assert(v@ =~= a@ + b@ + c@);
    string_of(&v)
}

/// The identity answers of one line, each with the given direction.
pub fn identity_records(body: &Vec<char>, tag: &Vec<char>, identity: bool, removed: bool) -> (r: Vec<Answer>)
    ensures
        answers_view(r@) == identity_answers(body@, tag@, identity).map_values(|a: Seq<char>| (a, removed)),
{
    let mut out: Vec<Answer> = Vec::new();
    let ghost ids = identity_answers(body@, tag@, identity).map_values(|a: Seq<char>| (a, removed));
    if !identity {
        assert(answers_view(out@) =~= ids);
        return out;
    }
    let passwd = chars_of("/etc/passwd");
    let group = chars_of("/etc/group");
    if chars_eq(tag, &passwd) {
        let fields = split_chars(body, ':');
        proof {
            lemma_split_on_len(body@, ':');
        }
        let empty: Vec<char> = Vec::new();
        let text = join3(&fields[0], &empty, tag);
        assert(fields[0]@ == fields.deep_view()[0]);
        out.push(Answer { text, removed });
        assert(answers_view(out@) =~= ids);
        return out;
    }
    if !chars_eq(tag, &group) {
        assert(answers_view(out@) =~= ids);
        return out;
    }
    let fields = split_chars(body, ':');
    if fields.len() < 4 {
        assert(answers_view(out@) =~= ids);
        return out;
    }
    let members = split_chars(&fields[3], ',');
    assert(fields[3]@ == fields.deep_view()[3]);
    assert(fields[0]@ == fields.deep_view()[0]);
    let mut colon: Vec<char> = Vec::new();
    colon.push(':');
    let mut head = fields[0].clone();
    append_chars(&mut head, &colon);
    let mut i: usize = 0;
    while i < members.len()
        invariant
            i <= members.len(),
            head@ == fields.deep_view()[0] + seq![':'],
            members.deep_view() == split_on(fields.deep_view()[3], ','),
            ids == split_on(fields.deep_view()[3], ',').map_values(|u: Seq<char>| fields.deep_view()[0] + seq![':'] + u + tag@).map_values(|a: Seq<char>| (a, removed)),
            answers_view(out@) == ids.subrange(0, i as int),
        decreases members.len() - i,
    {
        let text = join3(&head, &members[i], tag);
        assert(members[i as int]@ == members.deep_view()[i as int]);
        assert(ids[i as int] == (text@, removed));
        let ghost prev = out@;
        out.push(Answer { text, removed });
        assert(answers_view(out@) =~= answers_view(prev).push((text@, removed)));
        i += 1;
        assert(answers_view(out@) =~= ids.subrange(0, i as int));
    }
    assert(ids.subrange(0, members.len() as int) =~= ids);
    out
}

/// The answers of a diff's lines under a tag, in order; `identity` enables
/// the extra answers of the identity databases.
pub fn answers_for_changes(
    normalizer: &Normalizer,
    changes: &Vec<LineChange>,
    tag: &str,
    identity: bool,
) -> (r: Vec<Answer>)
    ensures
        answers_view(r@) == diff_answers(changes@, tag@, identity),
{
    let tag_chars = chars_of(tag);
    let mut out: Vec<Answer> = Vec::new();
    let mut i: usize = 0;
    while i < changes.len()
        invariant
            i <= changes.len(),
            tag_chars@ == tag@,
            answers_view(out@) == diff_answers(changes@.subrange(0, i as int), tag@, identity),
        decreases changes.len() - i,
    {
        let ghost pre = changes@.subrange(0, i as int);
        let ghost cur = changes@.subrange(0, i + 1);
        assert(cur.drop_last() =~= pre);
        let change = &changes[i];
        let ghost before = answers_view(out@);
        let ghost add = change_answers(change.kind, change.text@, tag@, identity);
        if change.kind != ChangeKind::Equal {
            let body = line_body_chars(&chars_of(change.text.as_str()));
            if body.len() > 0 {
                let removed = change.kind == ChangeKind::Delete;
                let mut ids = identity_records(&body, &tag_chars, identity, removed);
                let canon = normalizer.normalize_chars(&body);
                let empty: Vec<char> = Vec::new();
                let text = join3(&canon, &tag_chars, &empty);
                assert(text@ =~= normalize(body@) + tag@);
                let ghost idv = answers_view(ids@);
                ids.push(Answer { text, removed });
                assert(answers_view(ids@) =~= idv.push((normalize(body@) + tag@, removed)));
                assert(answers_view(ids@) =~= add);
                let ghost mid = out@;
                out.append(&mut ids);
                assert(answers_view(out@) =~= before + add);
            } else {
                assert(add =~= Seq::<(Seq<char>, bool)>::empty());
                assert(before + add =~= before);
            }
        } else {
            assert(add =~= Seq::<(Seq<char>, bool)>::empty());
            assert(before + add =~= before);
        }
        i += 1;
    }
    assert(changes@.subrange(0, changes.len() as int) =~= changes@);
    out
}

/// The answers for the change from `old` to `new` under `tag`: those of
/// some line diff of the two texts, in its order.
pub open spec fn is_diff_outcome(
    r: Seq<(Seq<char>, bool)>,
    old: Seq<char>,
    new: Seq<char>,
    tag: Seq<char>,
    identity: bool,
) -> bool {
    exists|cs: Seq<LineChange>| is_line_diff(cs, old, new) && r == diff_answers(cs, tag, identity)
}

/// Diffs `old` against `new` line by line and gives the answers of every
/// changed line under `tag`.
pub fn check_diff(normalizer: &Normalizer, old: &str, new: &str, tag: &str, identity: bool) -> (r: Vec<Answer>)
    ensures
        is_diff_outcome(answers_view(r@), old@, new@, tag@, identity),
{
    let changes = line_changes(old, new);
    let r = answers_for_changes(normalizer, &changes, tag, identity);
    assert(is_line_diff(changes@, old@, new@) && answers_view(r@) == diff_answers(changes@, tag@, identity));
    r
}

proof fn lemma_old_side_source(cs: Seq<LineChange>, l: Seq<char>)
    requires
        old_side(cs).contains(l),
    ensures
        exists|i: int| 0 <= i < cs.len() && (#[trigger] cs[i]).kind != ChangeKind::Insert && cs[i].text@ == l,
    decreases cs.len(),
{
    let p = old_side(cs.drop_last());
    if cs.last().kind != ChangeKind::Insert && cs.last().text@ == l {
        assert(cs[cs.len() - 1] == cs.last());
    } else {
        if cs.last().kind != ChangeKind::Insert {
            let k = choose|k: int| 0 <= k < old_side(cs).len() && old_side(cs)[k] == l;
            assert(k < p.len());
            assert(p[k] == l);
        }
        assert(p.contains(l));
        lemma_old_side_source(cs.drop_last(), l);
        let i = choose|i: int| 0 <= i < cs.drop_last().len() && (#[trigger] cs.drop_last()[i]).kind != ChangeKind::Insert && cs.drop_last()[i].text@ == l;
        assert(cs[i] == cs.drop_last()[i]);
    }
}

proof fn lemma_new_side_source(cs: Seq<LineChange>, l: Seq<char>)
    requires
        new_side(cs).contains(l),
    ensures
        exists|i: int| 0 <= i < cs.len() && (#[trigger] cs[i]).kind != ChangeKind::Delete && cs[i].text@ == l,
    decreases cs.len(),
{
    let p = new_side(cs.drop_last());
    if cs.last().kind != ChangeKind::Delete && cs.last().text@ == l {
        assert(cs[cs.len() - 1] == cs.last());
    } else {
        if cs.last().kind != ChangeKind::Delete {
            let k = choose|k: int| 0 <= k < new_side(cs).len() && new_side(cs)[k] == l;
            assert(k < p.len());
            assert(p[k] == l);
        }
        assert(p.contains(l));
        lemma_new_side_source(cs.drop_last(), l);
        let i = choose|i: int| 0 <= i < cs.drop_last().len() && (#[trigger] cs.drop_last()[i]).kind != ChangeKind::Delete && cs.drop_last()[i].text@ == l;
        assert(cs[i] == cs.drop_last()[i]);
    }
}

proof fn lemma_kept_on_both_sides(cs: Seq<LineChange>, i: int)
    requires
        0 <= i < cs.len(),
        cs[i].kind == ChangeKind::Equal,
    ensures
        old_side(cs).contains(cs[i].text@),
        new_side(cs).contains(cs[i].text@),
    decreases cs.len(),
{
    if i == cs.len() - 1 {
        assert(old_side(cs).last() == cs[i].text@);
        assert(new_side(cs).last() == cs[i].text@);
    } else {
        assert(cs.drop_last()[i] == cs[i]);
        lemma_kept_on_both_sides(cs.drop_last(), i);
        let p = old_side(cs.drop_last());
        let q = new_side(cs.drop_last());
        let a = choose|k: int| 0 <= k < p.len() && p[k] == cs[i].text@;
        let b = choose|k: int| 0 <= k < q.len() && q[k] == cs[i].text@;
        assert(old_side(cs)[a] == cs[i].text@);
        assert(new_side(cs)[b] == cs[i].text@);
    }
}

proof fn lemma_change_answers_kept(cs: Seq<LineChange>, i: int, tag: Seq<char>, identity: bool, x: (Seq<char>, bool))
    requires
        0 <= i < cs.len(),
        change_answers(cs[i].kind, cs[i].text@, tag, identity).contains(x),
    ensures
        diff_answers(cs, tag, identity).contains(x),
    decreases cs.len(),
{
    let p = diff_answers(cs.drop_last(), tag, identity);
    let c = change_answers(cs.last().kind, cs.last().text@, tag, identity);
    if i == cs.len() - 1 {
        let k = choose|k: int| 0 <= k < c.len() && c[k] == x;
        assert((p + c)[p.len() + k] == x);
    } else {
        assert(cs.drop_last()[i] == cs[i]);
        lemma_change_answers_kept(cs.drop_last(), i, tag, identity, x);
        let k = choose|k: int| 0 <= k < p.len() && p[k] == x;
        assert((p + c)[k] == x);
    }
}

/// A non-empty line that the old text has and the new one lacks gives a
/// removed answer: its canonical form followed by the tag.
pub proof fn lemma_lost_line_answered(
    answers: Seq<(Seq<char>, bool)>,
    old: Seq<char>,
    new: Seq<char>,
    tag: Seq<char>,
    identity: bool,
    line: Seq<char>,
)
    requires
        is_diff_outcome(answers, old, new, tag, identity),
        split_lines(old).contains(line),
        !split_lines(new).contains(line),
        line_body(line).len() > 0,
    ensures
        answers.contains((normalize(line_body(line)) + tag, true)),
{
    let cs = choose|cs: Seq<LineChange>| is_line_diff(cs, old, new) && answers == diff_answers(cs, tag, identity);
    lemma_old_side_source(cs, line);
    let i = choose|i: int| 0 <= i < cs.len() && (#[trigger] cs[i]).kind != ChangeKind::Insert && cs[i].text@ == line;
    if cs[i].kind == ChangeKind::Equal {
        lemma_kept_on_both_sides(cs, i);
    }
    let c = change_answers(cs[i].kind, cs[i].text@, tag, identity);
    assert(c.last() == (normalize(line_body(line)) + tag, true));
    assert(c[c.len() - 1] == c.last());
    lemma_change_answers_kept(cs, i, tag, identity, (normalize(line_body(line)) + tag, true));
}

/// A non-empty line that the new text has and the old one lacks gives an
/// added answer: its canonical form followed by the tag.
pub proof fn lemma_gained_line_answered(
    answers: Seq<(Seq<char>, bool)>,
    old: Seq<char>,
    new: Seq<char>,
    tag: Seq<char>,
    identity: bool,
    line: Seq<char>,
)
    requires
        is_diff_outcome(answers, old, new, tag, identity),
        split_lines(new).contains(line),
        !split_lines(old).contains(line),
        line_body(line).len() > 0,
    ensures
        answers.contains((normalize(line_body(line)) + tag, false)),
{
    let cs = choose|cs: Seq<LineChange>| is_line_diff(cs, old, new) && answers == diff_answers(cs, tag, identity);
    lemma_new_side_source(cs, line);
    let i = choose|i: int| 0 <= i < cs.len() && (#[trigger] cs[i]).kind != ChangeKind::Delete && cs[i].text@ == line;
    if cs[i].kind == ChangeKind::Equal {
        lemma_kept_on_both_sides(cs, i);
    }
    let c = change_answers(cs[i].kind, cs[i].text@, tag, identity);
    assert(c.last() == (normalize(line_body(line)) + tag, false));
    assert(c[c.len() - 1] == c.last());
    lemma_change_answers_kept(cs, i, tag, identity, (normalize(line_body(line)) + tag, false));
}

} // verus!
