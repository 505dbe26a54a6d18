//! The cloud-init user data given to each sandbox VM: a fixed document that
//! creates the sandbox user and the supervisor's systemd units, with the
//! supervisor's environment file embedded, its lines sorted.

use vstd::prelude::*;
use vstd::multiset::Multiset;
use crate::strmap::{
    lemma_pairs_map_dom, lemma_pairs_map_index, lemma_pairs_map_remove, pairs_distinct, pairs_map,
    StrMap,
};
use crate::text::{append_str, chars_of, contains_text, occurs_at, string_of};

verus! {

broadcast use vstd::string::group_string_axioms, vstd::seq_lib::group_to_multiset_ensures;

/// The document before the environment file.
pub const USER_DATA_HEAD: &'static str = "#cloud-config\nusers:\n  - default\n  - name: sandbox\n    system: true\n    shell: /bin/bash\n\nwrite_files:\n  - path: /etc/openshell/supervisor.env\n    permissions: '0600'\n    content: |\n";

/// The document after the environment file.
pub const USER_DATA_TAIL: &'static str = "\n  - path: /etc/systemd/system/openshell-supervisor.service\n    permissions: '0644'\n    content: |\n      [Unit]\n      Description=OpenShell Sandbox Supervisor\n      After=network-online.target\n      Wants=network-online.target\n\n      [Service]\n      Type=simple\n      EnvironmentFile=/etc/openshell/supervisor.env\n      ExecStart=/opt/openshell/supervisor\n      Restart=on-failure\n      RestartSec=2\n      RuntimeDirectory=openshell\n      RuntimeDirectoryPreserve=yes\n\n      [Install]\n      WantedBy=multi-user.target\n  - path: /etc/systemd/system/openshell-supervisor.path\n    permissions: '0644'\n    content: |\n      [Unit]\n      Description=Watch for OpenShell supervisor binary\n\n      [Path]\n      PathExists=/opt/openshell/supervisor\n\n      [Install]\n      WantedBy=multi-user.target\n\nruncmd:\n  - mkdir -p /opt/openshell /run/openshell /etc/openshell\n  - chmod 700 /run/openshell\n  - systemctl daemon-reload\n  - systemctl enable --now openshell-supervisor.path\n";

// ── Ordering text ────────────────────────────────────────────────────────

/// Lexicographic order of texts by character code (the order of `String`).
pub open spec fn lex_le(a: Seq<char>, b: Seq<char>) -> bool
    decreases a.len(),
{
    if a.len() == 0 {
        true
    } else if b.len() == 0 {
        false
    } else if a[0] != b[0] {
        a[0] < b[0]
    } else {
        lex_le(a.drop_first(), b.drop_first())
    }
}

pub proof fn lemma_lex_total(a: Seq<char>, b: Seq<char>)
    ensures
        lex_le(a, b) || lex_le(b, a),
    decreases a.len(),
{
    if a.len() > 0 && b.len() > 0 && a[0] == b[0] {
        lemma_lex_total(a.drop_first(), b.drop_first());
    }
}

pub proof fn lemma_lex_antisymmetric(a: Seq<char>, b: Seq<char>)
    requires
        lex_le(a, b),
        lex_le(b, a),
    ensures
        a == b,
    decreases a.len(),
{
    if a.len() > 0 {
        lemma_lex_antisymmetric(a.drop_first(), b.drop_first());
        assert(a =~= b) by {
            assert forall|i: int| 0 <= i < a.len() implies a[i] == b[i] by {
                if i > 0 {
                    assert(a[i] == a.drop_first()[i - 1]);
                    assert(b[i] == b.drop_first()[i - 1]);
                }
            }
        }
    }
}

pub proof fn lemma_lex_transitive(a: Seq<char>, b: Seq<char>, c: Seq<char>)
    requires
        lex_le(a, b),
        lex_le(b, c),
    ensures
        lex_le(a, c),
    decreases a.len(),
{
    if a.len() > 0 && b.len() > 0 && c.len() > 0 && a[0] == b[0] && b[0] == c[0] {
        lemma_lex_transitive(a.drop_first(), b.drop_first(), c.drop_first());
    }
}

/// Each text is at most every later one.
pub open spec fn lex_sorted(s: Seq<Seq<char>>) -> bool {
    forall|i: int, j: int| 0 <= i < j < s.len() ==> lex_le(#[trigger] s[i], #[trigger] s[j])
}

/// Sorting has one outcome: two sorted orderings of the same texts agree.
pub proof fn sorted_order_is_unique(s1: Seq<Seq<char>>, s2: Seq<Seq<char>>)
    requires
        lex_sorted(s1),
        lex_sorted(s2),
        s1.to_multiset() == s2.to_multiset(),
    ensures
        s1 == s2,
    decreases s1.len(),
{
    assert(s1.len() == s1.to_multiset().len());
    assert(s2.len() == s2.to_multiset().len());
    if s1.len() > 0 {
        let a = s1[0];
        let b = s2[0];
        assert(s2.contains(b));
        assert(s1.to_multiset().count(b) > 0);
        assert(s1.contains(b));
        let ib = choose|i: int| 0 <= i < s1.len() && s1[i] == b;
        if ib > 0 {
            assert(lex_le(s1[0], s1[ib]));
        } else {
            lemma_lex_total(a, a);
        }
        assert(s1.contains(a));
        assert(s2.to_multiset().count(a) > 0);
        assert(s2.contains(a));
        let ia = choose|i: int| 0 <= i < s2.len() && s2[i] == a;
        if ia > 0 {
            assert(lex_le(s2[0], s2[ia]));
        } else {
            lemma_lex_total(b, b);
        }
        lemma_lex_antisymmetric(a, b);
        let t1 = s1.remove(0);
        let t2 = s2.remove(0);
        assert(t1.to_multiset() == s1.to_multiset().remove(a));
        assert(t2.to_multiset() == s2.to_multiset().remove(b));
        assert(lex_sorted(t1)) by {
            assert forall|i: int, j: int| 0 <= i < j < t1.len() implies lex_le(
                #[trigger] t1[i],
                #[trigger] t1[j],
            ) by {
                assert(t1[i] == s1[i + 1] && t1[j] == s1[j + 1]);
            }
        }
        assert(lex_sorted(t2)) by {
            assert forall|i: int, j: int| 0 <= i < j < t2.len() implies lex_le(
                #[trigger] t2[i],
                #[trigger] t2[j],
            ) by {
                assert(t2[i] == s2[i + 1] && t2[j] == s2[j + 1]);
            }
        }
        sorted_order_is_unique(t1, t2);
        assert(s1 =~= s2) by {
            assert forall|i: int| 0 <= i < s1.len() implies s1[i] == s2[i] by {
                if i > 0 {
                    assert(s1[i] == t1[i - 1] && s2[i] == t2[i - 1]);
                }
            }
        }
    }
}

/// The texts of a multiset in sorted order.
pub open spec fn sorted_of(m: Multiset<Seq<char>>) -> Seq<Seq<char>> {
    choose|s: Seq<Seq<char>>| lex_sorted(s) && s.to_multiset() == m
}

/// The views of a list of character vectors.
pub open spec fn views_of(s: Seq<Vec<char>>) -> Seq<Seq<char>> {
    s.map_values(|v: Vec<char>| v@)
}

fn lex_le_exec(a: &Vec<char>, b: &Vec<char>) -> (r: bool)
    ensures
        r == lex_le(a@, b@),
{
    let mut i: usize = 0;
    assert(a@.skip(0) =~= a@);
    assert(b@.skip(0) =~= b@);
    while i < a.len() && i < b.len()
        invariant
            i <= a@.len(),
            i <= b@.len(),
            lex_le(a@, b@) == lex_le(a@.skip(i as int), b@.skip(i as int)),
        decreases a@.len() - i,
    {
        if a[i] != b[i] {
            return a[i] < b[i];
        }
        assert(a@.skip(i as int).drop_first() =~= a@.skip(i + 1));
        assert(b@.skip(i as int).drop_first() =~= b@.skip(i + 1));
        i = i + 1;
    }
    i == a.len()
}

/// Sorts texts by insertion; the result is sorted and holds the same texts.
fn sort_texts(lines: Vec<Vec<char>>) -> (r: Vec<Vec<char>>)
    ensures
        lex_sorted(views_of(r@)),
        views_of(r@).to_multiset() == views_of(lines@).to_multiset(),
{
    let mut rest = lines;
    let ghost all = views_of(lines@).to_multiset();
    let mut out: Vec<Vec<char>> = Vec::new();
    assert(views_of(out@).to_multiset() =~= Multiset::<Seq<char>>::empty());
    while rest.len() > 0
        invariant
            lex_sorted(views_of(out@)),
            views_of(out@).to_multiset().add(views_of(rest@).to_multiset()) == all,
        decreases rest@.len(),
    {
        let ghost before = rest@;
        let x = rest.pop().unwrap();
        assert(views_of(before) =~= views_of(rest@).push(x@));
        let n = out.len();
        let mut p: usize = 0;
        while p < n && lex_le_exec(&out[p], &x)
            invariant
                n == out@.len(),
                p <= n,
                forall|q: int| 0 <= q < p ==> lex_le(#[trigger] out@[q]@, x@),
            decreases n - p,
        {
            p = p + 1;
        }
        let ghost old_out = out@;
        out.insert(p, x);
        assert(views_of(out@) =~= views_of(old_out).insert(p as int, x@));
        assert(lex_sorted(views_of(out@))) by {
            let v = views_of(out@);
            let o = views_of(old_out);
            assert forall|i: int, j: int| 0 <= i < j < v.len() implies lex_le(
                #[trigger] v[i],
                #[trigger] v[j],
            ) by {
                if p < n {
                    lemma_lex_total(o[p as int], x@);
                }
                if j < p {
                    assert(v[i] == o[i] && v[j] == o[j]);
                } else if j == p {
                    assert(v[i] == o[i]);
                } else if i == p {
                    assert(v[j] == o[j - 1]);
                    if j - 1 > p {
                        assert(lex_le(o[p as int], o[j - 1]));
                        lemma_lex_transitive(x@, o[p as int], o[j - 1]);
                    }
                } else if i < p {
                    assert(v[i] == o[i] && v[j] == o[j - 1]);
                } else {
                    assert(v[i] == o[i - 1] && v[j] == o[j - 1]);
                }
            }
        }
    }
    assert(views_of(rest@).to_multiset() =~= Multiset::<Seq<char>>::empty());
    out
}

// ── Rendering ────────────────────────────────────────────────────────────

/// Texts joined by newlines.
pub open spec fn join_lines(ls: Seq<Seq<char>>) -> Seq<char>
    decreases ls.len(),
{
    if ls.len() == 0 {
        Seq::empty()
    } else if ls.len() == 1 {
        ls[0]
    } else {
        join_lines(ls.drop_last()) + seq!['\n'] + ls.last()
    }
}

/// A line without the carriage return that ended it, if any.
pub open spec fn strip_cr(l: Seq<char>) -> Seq<char> {
    if l.len() > 0 && l.last() == '\r' {
        l.drop_last()
    } else {
        l
    }
}

/// Splitting text into lines, read up to some point: the lines ended so far
/// and the line still open.
pub open spec fn split_state(c: Seq<char>) -> (Seq<Seq<char>>, Seq<char>)
    decreases c.len(),
{
    if c.len() == 0 {
        (Seq::empty(), Seq::empty())
    } else {
        let (done, cur) = split_state(c.drop_last());
        if c.last() == '\n' {
            (done.push(strip_cr(cur)), Seq::empty())
        } else {
            (done, cur.push(c.last()))
        }
    }
}

/// The lines of a text (`str::lines`): split at `\n`, a `\r` before it
/// dropped, no empty line after a final `\n`.
pub open spec fn text_lines(c: Seq<char>) -> Seq<Seq<char>> {
    let (done, cur) = split_state(c);
    if cur.len() > 0 {
        done.push(cur)
    } else {
        done
    }
}

/// Each line indented by six spaces, as a YAML block body.
pub open spec fn indented(ls: Seq<Seq<char>>) -> Seq<Seq<char>> {
    ls.map_values(|l: Seq<char>| seq![' ', ' ', ' ', ' ', ' ', ' '] + l)
}

/// The user data for an environment file whose lines are those of `m`.
pub open spec fn user_data_text(m: Multiset<Seq<char>>) -> Seq<char> {
    USER_DATA_HEAD@ + join_lines(indented(text_lines(join_lines(sorted_of(m))))) + USER_DATA_TAIL@
}

/// `KEY=value`.
pub open spec fn env_line(k: Seq<char>, v: Seq<char>) -> Seq<char> {
    k + seq!['='] + v
}

/// The environment file lines of a list of keys and values.
pub open spec fn env_lines(pairs: Seq<(Seq<char>, Seq<char>)>) -> Seq<Seq<char>> {
    pairs.map_values(|p: (Seq<char>, Seq<char>)| env_line(p.0, p.1))
}

fn join_lines_exec(ls: &Vec<Vec<char>>) -> (r: Vec<char>)
    ensures
        r@ == join_lines(views_of(ls@)),
{
    let mut out: Vec<char> = Vec::new();
    let n = ls.len();
    let mut i: usize = 0;
    while i < n
        invariant
            n == ls@.len(),
            i <= n,
            out@ == join_lines(views_of(ls@).take(i as int)),
        decreases n - i,
    {
        let ghost t = views_of(ls@).take(i + 1);
        assert(t.drop_last() =~= views_of(ls@).take(i as int));
        if i > 0 {
            out.push('\n');
        }
        let line = &ls[i];
        let m = line.len();
        let ghost base = out@;
        let mut k: usize = 0;
        while k < m
            invariant
                m == line@.len(),
                k <= m,
                out@ == base + line@.take(k as int),
            decreases m - k,
        {
            out.push(line[k]);
            assert(out@ =~= base + line@.take(k + 1));
            k = k + 1;
        }
        assert(line@.take(m as int) =~= line@);
        if i == 0 {
            assert(base =~= Seq::<char>::empty());
            assert(out@ =~= t[0]);
        } else {
            assert(out@ =~= join_lines(t.drop_last()) + seq!['\n'] + t.last());
        }
        i = i + 1;
    }
    assert(views_of(ls@).take(n as int) =~= views_of(ls@));
    out
}

fn split_text_lines(c: &Vec<char>) -> (r: Vec<Vec<char>>)
    ensures
        views_of(r@) == text_lines(c@),
{
    let mut done: Vec<Vec<char>> = Vec::new();
    let mut cur: Vec<char> = Vec::new();
    let n = c.len();
    let mut i: usize = 0;
    while i < n
        invariant
            n == c@.len(),
            i <= n,
            (views_of(done@), cur@) == split_state(c@.take(i as int)),
        decreases n - i,
    {
        assert(c@.take(i + 1).drop_last() =~= c@.take(i as int));
        if c[i] == '\n' {
            if cur.len() > 0 && cur[cur.len() - 1] == '\r' {
                cur.pop();
            }
            let ghost old_done = views_of(done@);
            done.push(cur);
            assert(views_of(done@) =~= old_done.push(done@[done@.len() - 1]@));
            cur = Vec::new();
        } else {
            cur.push(c[i]);
        }
        i = i + 1;
    }
    assert(c@.take(n as int) =~= c@);
    if cur.len() > 0 {
        let ghost old_done = views_of(done@);
        done.push(cur);
        assert(views_of(done@) =~= old_done.push(done@[done@.len() - 1]@));
    }
    done
}

/// Renders the cloud-init user data for a supervisor environment: the
/// `KEY=value` lines of the entries, sorted, form the environment file,
/// whose lines are indented into the document.
pub fn cloud_init_user_data(env: &StrMap<String>) -> (r: String)
    ensures
        r@ == user_data_text(env_lines(env.view_pairs()).to_multiset()),
{
    let entries = env.entries();
    let n = entries.len();
    let mut lines: Vec<Vec<char>> = Vec::new();
    let mut i: usize = 0;
    while i < n
        invariant
            n == entries@.len(),
            i <= n,
            views_of(lines@) == env_lines(env.view_pairs()).take(i as int),
            entries@ == env.entry_seq(),
        decreases n - i,
    {
        let mut l = chars_of(entries[i].0.as_str());
        l.push('=');
        let mut v = chars_of(entries[i].1.as_str());
        let ghost lk = l@;
        l.append(&mut v);
        assert(l@ =~= env_line(entries@[i as int].0@, entries@[i as int].1@));
        let ghost old_lines = lines@;
        let ghost lv = l@;
        lines.push(l);
        assert(views_of(lines@) =~= views_of(old_lines).push(lv));
        assert(env_lines(env.view_pairs())[i as int] == lv);
        assert(env_lines(env.view_pairs()).take(i + 1) =~= env_lines(env.view_pairs()).take(
            i as int,
        ).push(lv));
        i = i + 1;
    }
    assert(env_lines(env.view_pairs()).take(n as int) =~= env_lines(env.view_pairs()));
    let sorted = sort_texts(lines);
    proof {
        let m = env_lines(env.view_pairs()).to_multiset();
        assert(lex_sorted(views_of(sorted@)) && views_of(sorted@).to_multiset() == m);
        let s = sorted_of(m);
        assert(lex_sorted(s) && s.to_multiset() == m);
        sorted_order_is_unique(views_of(sorted@), s);
    }
    let content = join_lines_exec(&sorted);
    let body_lines = split_text_lines(&content);
    let mut shifted: Vec<Vec<char>> = Vec::new();
    let k = body_lines.len();
    let mut j: usize = 0;
    while j < k
        invariant
            k == body_lines@.len(),
            j <= k,
            views_of(shifted@) == indented(views_of(body_lines@)).take(j as int),
        decreases k - j,
    {
        let mut l = vec![' ', ' ', ' ', ' ', ' ', ' '];
        let mut rest = body_lines[j].clone();
        assert(rest@ == body_lines@[j as int]@);
        l.append(&mut rest);
        let ghost old_shifted = shifted@;
        let ghost lv = l@;
        shifted.push(l);
        assert(views_of(shifted@) =~= views_of(old_shifted).push(lv));
        assert(views_of(body_lines@)[j as int] == body_lines@[j as int]@);
        assert(indented(views_of(body_lines@))[j as int] =~= lv);
        assert(indented(views_of(body_lines@)).take(j + 1) =~= indented(views_of(body_lines@)).take(
            j as int,
        ).push(lv));
        j = j + 1;
    }
    assert(indented(views_of(body_lines@)).take(k as int) =~= indented(views_of(body_lines@)));
    let body = join_lines_exec(&shifted);
    let mut out = crate::text::owned(USER_DATA_HEAD);
    append_str(&mut out, string_of(&body).as_str());
    append_str(&mut out, USER_DATA_TAIL);
    out
}


// ── Every entry is a line of the document ────────────────────────────────

/// A text that ends a line: empty, or ending in a newline.
pub open spec fn ends_in_newline(p: Seq<char>) -> bool {
    p.len() == 0 || p.last() == '\n'
}

/// A text that starts a line: empty, or starting with a newline.
pub open spec fn starts_with_newline(s: Seq<char>) -> bool {
    s.len() == 0 || s[0] == '\n'
}

/// No line break in a text.
pub open spec fn one_line(t: Seq<char>) -> bool {
    forall|i: int| 0 <= i < t.len() ==> #[trigger] t[i] != '\n' && t[i] != '\r'
}

proof fn lemma_split_no_newline(x: Seq<char>, y: Seq<char>)
    requires
        forall|i: int| 0 <= i < y.len() ==> #[trigger] y[i] != '\n',
    ensures
        split_state(x + y) == (split_state(x).0, split_state(x).1 + y),
    decreases y.len(),
{
    if y.len() == 0 {
        assert(x + y =~= x);
        assert(split_state(x).1 + y =~= split_state(x).1);
    } else {
        lemma_split_no_newline(x, y.drop_last());
        assert((x + y).drop_last() =~= x + y.drop_last());
        assert((x + y).last() == y.last());
        assert(split_state(x).1 + y =~= (split_state(x).1 + y.drop_last()).push(y.last()));
    }
}

proof fn lemma_split_extends(x: Seq<char>, y: Seq<char>)
    ensures
        split_state(x).0.len() <= split_state(x + y).0.len(),
        forall|i: int|
            0 <= i < split_state(x).0.len() ==> #[trigger] split_state(x + y).0[i] == split_state(
                x,
            ).0[i],
    decreases y.len(),
{
    if y.len() == 0 {
        assert(x + y =~= x);
    } else {
        lemma_split_extends(x, y.drop_last());
        assert((x + y).drop_last() =~= x + y.drop_last());
    }
}

/// A one-line text standing between line ends is one of the lines.
proof fn lemma_line_of_text(p: Seq<char>, l: Seq<char>, s: Seq<char>)
    requires
        ends_in_newline(p),
        starts_with_newline(s),
        one_line(l),
        l.len() > 0,
    ensures
        text_lines(p + l + s).contains(l),
{
    assert(split_state(p).1.len() == 0) by {
        if p.len() > 0 {
            assert(p.last() == '\n');
        }
    }
    lemma_split_no_newline(p, l);
    assert(split_state(p).1 + l =~= l);
    let d = split_state(p).0;
    if s.len() == 0 {
        assert(p + l + s =~= p + l);
        assert(text_lines(p + l) == d.push(l));
        assert(d.push(l)[d.len() as int] == l);
    } else {
        let x = p + l + seq!['\n'];
        assert(x.drop_last() =~= p + l);
        assert(strip_cr(l) == l) by {
            assert(l.last() != '\r');
        }
        assert(split_state(x).0 == d.push(l));
        let rest = s.drop_first();
        assert(p + l + s =~= x + rest);
        lemma_split_extends(x, rest);
        let dd = split_state(x + rest).0;
        assert(dd[d.len() as int] == l);
        let tl = text_lines(x + rest);
        assert(tl[d.len() as int] == l);
    }
}

/// Joined lines, seen around one of them.
proof fn lemma_join_around(ls: Seq<Seq<char>>, i: int) -> (r: (Seq<char>, Seq<char>))
    requires
        0 <= i < ls.len(),
    ensures
        join_lines(ls) == r.0 + ls[i] + r.1,
        ends_in_newline(r.0),
        starts_with_newline(r.1),
    decreases ls.len(),
{
    if ls.len() == 1 {
        assert(join_lines(ls) =~= Seq::<char>::empty() + ls[i] + Seq::<char>::empty());
        (Seq::empty(), Seq::empty())
    } else if i == ls.len() - 1 {
        let pre = join_lines(ls.drop_last()) + seq!['\n'];
        assert(join_lines(ls) =~= pre + ls[i] + Seq::<char>::empty());
        (pre, Seq::empty())
    } else {
        let (p, s) = lemma_join_around(ls.drop_last(), i);
        assert(ls.drop_last()[i] == ls[i]);
        let post = s + seq!['\n'] + ls.last();
        assert(join_lines(ls) =~= p + ls[i] + post);
        assert(post[0] == '\n');
        (p, post)
    }
}

/// Every environment entry without a line break is written whole on a line
/// of its own in the user data: six spaces, the key, `=` and the entire
/// value.
pub proof fn every_entry_is_a_line(pairs: Seq<(Seq<char>, Seq<char>)>, i: int)
    requires
        0 <= i < pairs.len(),
        one_line(pairs[i].0),
        one_line(pairs[i].1),
    ensures
        contains_text(
            user_data_text(env_lines(pairs).to_multiset()),
            seq!['\n', ' ', ' ', ' ', ' ', ' ', ' '] + pairs[i].0 + seq!['='] + pairs[i].1 + seq![
                '\n',
            ],
        ),
{
    let k = pairs[i].0;
    let v = pairs[i].1;
    let line = k + seq!['='] + v;
    let m = env_lines(pairs).to_multiset();
    assert(env_lines(pairs)[i] == line);
    sorted_exists(env_lines(pairs));
    let st = sorted_of(m);
    assert(m.count(line) > 0) by {
        assert(env_lines(pairs).contains(line));
    }
    assert(st.contains(line)) by {
        assert(st.to_multiset().count(line) > 0);
    }
    let j = choose|j: int| 0 <= j < st.len() && st[j] == line;
    assert(one_line(line)) by {
        assert forall|q: int| 0 <= q < line.len() implies #[trigger] line[q] != '\n' && line[q]
            != '\r' by {
            if q < k.len() {
                assert(line[q] == k[q]);
            } else if q > k.len() {
                assert(line[q] == v[q - k.len() - 1]);
            }
        }
    }
    let (p1, s1) = lemma_join_around(st, j);
    assert(line.len() > 0) by {
        assert(line[k.len() as int] == '=');
    }
    lemma_line_of_text(p1, line, s1);
    let tl = text_lines(join_lines(st));
    let jj = choose|q: int| 0 <= q < tl.len() && tl[q] == line;
    let ind = indented(tl);
    let shown = seq![' ', ' ', ' ', ' ', ' ', ' '] + line;
    assert(ind[jj] == shown);
    let (p2, s2) = lemma_join_around(ind, jj);
    reveal_strlit("#cloud-config\nusers:\n  - default\n  - name: sandbox\n    system: true\n    shell: /bin/bash\n\nwrite_files:\n  - path: /etc/openshell/supervisor.env\n    permissions: '0600'\n    content: |\n");
    reveal_strlit("\n  - path: /etc/systemd/system/openshell-supervisor.service\n    permissions: '0644'\n    content: |\n      [Unit]\n      Description=OpenShell Sandbox Supervisor\n      After=network-online.target\n      Wants=network-online.target\n\n      [Service]\n      Type=simple\n      EnvironmentFile=/etc/openshell/supervisor.env\n      ExecStart=/opt/openshell/supervisor\n      Restart=on-failure\n      RestartSec=2\n      RuntimeDirectory=openshell\n      RuntimeDirectoryPreserve=yes\n\n      [Install]\n      WantedBy=multi-user.target\n  - path: /etc/systemd/system/openshell-supervisor.path\n    permissions: '0644'\n    content: |\n      [Unit]\n      Description=Watch for OpenShell supervisor binary\n\n      [Path]\n      PathExists=/opt/openshell/supervisor\n\n      [Install]\n      WantedBy=multi-user.target\n\nruncmd:\n  - mkdir -p /opt/openshell /run/openshell /etc/openshell\n  - chmod 700 /run/openshell\n  - systemctl daemon-reload\n  - systemctl enable --now openshell-supervisor.path\n");
    let head = USER_DATA_HEAD@ + p2;
    let tail = s2 + USER_DATA_TAIL@;
    assert(head.len() > 0 && head.last() == '\n') by {
        if p2.len() == 0 {
            assert(head =~= USER_DATA_HEAD@);
        } else {
            assert(head.last() == p2.last());
        }
    }
    assert(tail.len() > 0 && tail[0] == '\n') by {
        if s2.len() == 0 {
            assert(tail =~= USER_DATA_TAIL@);
        } else {
            assert(tail[0] == s2[0]);
        }
    }
    let doc = user_data_text(m);
    assert(doc =~= head + shown + tail);
    let target = seq!['\n', ' ', ' ', ' ', ' ', ' ', ' '] + k + seq!['='] + v + seq!['\n'];
    let at = head.len() - 1;
    assert(doc.subrange(at, at + target.len()) =~= target);
    assert(occurs_at(doc, target, at));
}


// ── Laws ─────────────────────────────────────────────────────────────────

proof fn lemma_env_lines_multiset(a: Seq<(Seq<char>, Seq<char>)>, b: Seq<(Seq<char>, Seq<char>)>)
    requires
        pairs_distinct(a),
        pairs_distinct(b),
        pairs_map(a) == pairs_map(b),
    ensures
        env_lines(a).to_multiset() == env_lines(b).to_multiset(),
    decreases a.len(),
{
    lemma_pairs_map_dom(a);
    lemma_pairs_map_dom(b);
    if a.len() == 0 {
        if b.len() > 0 {
            assert(pairs_map(b).contains_key(b[0].0));
            assert(pairs_map(a) =~= Map::<Seq<char>, Seq<char>>::empty());
        }
        assert(env_lines(a) =~= env_lines(b));
    } else {
        let k = a.last().0;
        let v = a.last().1;
        let a0 = a.drop_last();
        assert(pairs_distinct(a0));
        lemma_pairs_map_dom(a0);
        assert(!pairs_map(a0).contains_key(k)) by {
            if pairs_map(a0).contains_key(k) {
                let i = choose|i: int| 0 <= i < a0.len() && #[trigger] a0[i].0 == k;
                assert(a[i].0 == a[a.len() - 1].0);
            }
        }
        assert(pairs_map(b).contains_key(k));
        let j = choose|j: int| 0 <= j < b.len() && #[trigger] b[j].0 == k;
        lemma_pairs_map_index(b, j);
        lemma_pairs_map_remove(b, j);
        let b0 = b.remove(j);
        assert(pairs_map(a0) =~= pairs_map(a).remove(k));
        lemma_env_lines_multiset(a0, b0);
        let line = env_line(k, v);
        assert(env_lines(a) =~= env_lines(a0).push(line));
        assert(env_lines(b0) =~= env_lines(b).remove(j));
        assert(env_lines(b)[j] == line);
        let m = env_lines(b).to_multiset();
        assert(m.count(line) > 0) by {
            assert(env_lines(b).contains(line));
        }
        assert(env_lines(b0).to_multiset() == m.remove(line));
        assert(m.remove(line).insert(line) =~= m);
    }
}

/// The user data depends on the supervisor's environment only as a map:
/// two listings of the same keys and values, in any order, render the same
/// document.
pub proof fn user_data_depends_only_on_map(
    a: Seq<(Seq<char>, Seq<char>)>,
    b: Seq<(Seq<char>, Seq<char>)>,
)
    requires
        pairs_distinct(a),
        pairs_distinct(b),
        pairs_map(a) == pairs_map(b),
    ensures
        user_data_text(env_lines(a).to_multiset()) == user_data_text(env_lines(b).to_multiset()),
{
    lemma_env_lines_multiset(a, b);
}

/// The environment file is sorted: its lines come out in order, and they
/// are exactly the `KEY=value` lines of the environment.
pub proof fn env_file_is_sorted(m: Multiset<Seq<char>>, s: Seq<Seq<char>>)
    requires
        s.to_multiset() == m,
    ensures
        lex_sorted(sorted_of(m)),
        sorted_of(m).to_multiset() == m,
{
    sorted_exists(s);
}

/// Inserts a text into a sorted list, after the texts at most it.
pub open spec fn insert_sorted(st: Seq<Seq<char>>, x: Seq<char>) -> Seq<Seq<char>>
    decreases st.len(),
{
    if st.len() == 0 {
        seq![x]
    } else if lex_le(st[0], x) {
        seq![st[0]] + insert_sorted(st.drop_first(), x)
    } else {
        seq![x] + st
    }
}

proof fn lemma_insert_sorted(st: Seq<Seq<char>>, x: Seq<char>)
    requires
        lex_sorted(st),
    ensures
        lex_sorted(insert_sorted(st, x)),
        insert_sorted(st, x).to_multiset() == st.to_multiset().insert(x),
        insert_sorted(st, x).len() == st.len() + 1,
        forall|i: int|
            0 <= i < insert_sorted(st, x).len() ==> #[trigger] insert_sorted(st, x)[i] == x
                || st.contains(insert_sorted(st, x)[i]),
    decreases st.len(),
{
    let r = insert_sorted(st, x);
    if st.len() == 0 {
        assert(r.to_multiset() =~= st.to_multiset().insert(x)) by {
            assert(r =~= st.push(x));
        }
    } else if lex_le(st[0], x) {
        let t = st.drop_first();
        assert(lex_sorted(t)) by {
            assert forall|i: int, j: int| 0 <= i < j < t.len() implies lex_le(
                #[trigger] t[i],
                #[trigger] t[j],
            ) by {
                assert(t[i] == st[i + 1] && t[j] == st[j + 1]);
            }
        }
        lemma_insert_sorted(t, x);
        let it = insert_sorted(t, x);
        assert forall|i: int, j: int| 0 <= i < j < r.len() implies lex_le(
            #[trigger] r[i],
            #[trigger] r[j],
        ) by {
            if i == 0 {
                assert(r[j] == it[j - 1]);
                if it[j - 1] != x {
                    assert(t.contains(it[j - 1]));
                    let q = choose|q: int| 0 <= q < t.len() && t[q] == it[j - 1];
                    assert(st[q + 1] == t[q]);
                    assert(lex_le(st[0], st[q + 1]));
                }
            } else {
                assert(r[i] == it[i - 1] && r[j] == it[j - 1]);
            }
        }
        assert forall|i: int| 0 <= i < r.len() implies #[trigger] r[i] == x || st.contains(r[i]) by {
            if i > 0 {
                assert(r[i] == it[i - 1]);
                if it[i - 1] != x {
                    let q = choose|q: int| 0 <= q < t.len() && t[q] == it[i - 1];
                    assert(st[q + 1] == t[q]);
                }
            } else {
                assert(st[0] == r[0]);
            }
        }
        assert(st =~= seq![st[0]] + t);
        vstd::seq_lib::lemma_multiset_commutative(seq![st[0]], it);
        vstd::seq_lib::lemma_multiset_commutative(seq![st[0]], t);
        assert(r.to_multiset() =~= st.to_multiset().insert(x));
    } else {
        lemma_lex_total(st[0], x);
        assert forall|i: int, j: int| 0 <= i < j < r.len() implies lex_le(
            #[trigger] r[i],
            #[trigger] r[j],
        ) by {
            if i == 0 {
                if j > 1 {
                    assert(lex_le(st[0], st[j - 1]));
                    lemma_lex_transitive(x, st[0], st[j - 1]);
                }
            } else {
                assert(r[i] == st[i - 1] && r[j] == st[j - 1]);
            }
        }
        assert forall|i: int| 0 <= i < r.len() implies #[trigger] r[i] == x || st.contains(r[i]) by {
            if i > 0 {
                assert(r[i] == st[i - 1]);
            }
        }
        vstd::seq_lib::lemma_multiset_commutative(seq![x], st);
        assert(r.to_multiset() =~= st.to_multiset().insert(x));
    }
}

/// Insertion sort, as a specification.
pub open spec fn sort_spec(s: Seq<Seq<char>>) -> Seq<Seq<char>>
    decreases s.len(),
{
    if s.len() == 0 {
        s
    } else {
        insert_sorted(sort_spec(s.drop_last()), s.last())
    }
}

/// Every list of texts has a sorted ordering.
pub proof fn sorted_exists(s: Seq<Seq<char>>)
    ensures
        lex_sorted(sorted_of(s.to_multiset())),
        sorted_of(s.to_multiset()).to_multiset() == s.to_multiset(),
    decreases s.len(),
{
    lemma_sort_spec(s);
}

proof fn lemma_sort_spec(s: Seq<Seq<char>>)
    ensures
        lex_sorted(sort_spec(s)),
        sort_spec(s).to_multiset() == s.to_multiset(),
    decreases s.len(),
{
    if s.len() > 0 {
        lemma_sort_spec(s.drop_last());
        lemma_insert_sorted(sort_spec(s.drop_last()), s.last());
        assert(s =~= s.drop_last().push(s.last()));
    }
}

} // verus!
