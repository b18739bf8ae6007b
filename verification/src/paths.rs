//! Paths as text: components between `/`, and the rules that read them.
//!
//! A component is what stands between two separators, the empty text and
//! a lone `.` left out. A path that starts with `/` is rooted.

use crate::text::{chars_of, lemma_run_len_bound, run_end, run_len, string_of};
use vstd::prelude::*;

verus! {

/// Whether the text between two separators counts as a component.
pub open spec fn is_component(seg: Seq<char>) -> bool {
    seg.len() > 0 && seg != seq!['.']
}

/// Whether a component refers to the parent directory.
pub open spec fn is_parent_ref(seg: Seq<char>) -> bool {
    seg == seq!['.', '.']
}

/// Whether a path starts at the file system's root.
pub open spec fn is_rooted(path: Seq<char>) -> bool {
    path.len() > 0 && path[0] == '/'
}

/// The components of `path` that start at `from` or later.
pub open spec fn components_from(path: Seq<char>, from: int) -> Seq<Seq<char>>
    decreases path.len() + 1 - from,
{
    if from < 0 || from >= path.len() {
        Seq::empty()
    } else {
        let end = from + run_len(path, from, '/');
        proof {
            lemma_run_len_bound(path, from, '/');
        }
        let seg = path.subrange(from, end);
        let rest = components_from(path, end + 1);
        if is_component(seg) {
            seq![seg] + rest
        } else {
            rest
        }
    }
}

/// The components of a path, in order.
pub open spec fn components(path: Seq<char>) -> Seq<Seq<char>> {
    components_from(path, 0)
}

/// Where the components of `chars` stand.
pub fn component_spans(chars: &Vec<char>) -> (spans: Vec<(usize, usize)>)
    ensures
        spans@.len() == components(chars@).len(),
        forall|i: int|
            0 <= i < spans@.len() ==> (#[trigger] spans@[i]).0 <= spans@[i].1 <= chars@.len()
                && chars@.subrange(spans@[i].0 as int, spans@[i].1 as int) == components(chars@)[i],
{
    let mut spans: Vec<(usize, usize)> = Vec::new();
    let mut start: usize = 0;
    let ghost all = components(chars@);
    while start < chars.len()
        invariant
            start <= chars.len(),
            all == components(chars@),
            spans@.len() + components_from(chars@, start as int).len() == all.len(),
            forall|i: int|
                0 <= i < spans@.len() ==> (#[trigger] spans@[i]).0 <= spans@[i].1 <= chars@.len()
                    && chars@.subrange(spans@[i].0 as int, spans@[i].1 as int) == all[i],
            forall|i: int|
                0 <= i < components_from(chars@, start as int).len() ==> all[spans@.len() + i]
                    == #[trigger] components_from(chars@, start as int)[i],
        decreases chars.len() - start,
    {
        let end = run_end(chars, start, '/');
        let ghost seg = chars@.subrange(start as int, end as int);
        let ghost rest = components_from(chars@, end as int + 1);
        let ghost here = components_from(chars@, start as int);
        if end > start && !(end - start == 1 && chars[start] == '.') {
            proof {
                assert(seg[0] == chars@[start as int]);
                assert(is_component(seg));
                assert(here == seq![seg] + rest);
                assert(here[0] == seg);
                assert forall|i: int| 0 <= i < rest.len() implies all[spans@.len() + 1 + i]
                    == #[trigger] rest[i] by {
                    assert(here[i + 1] == rest[i]);
                }
            }
            spans.push((start, end));
        } else {
            proof {
                if end > start {
                    assert(seg =~= seq!['.']);
                }
                assert(!is_component(seg));
                assert(here == rest);
            }
        }
        if end == chars.len() {
            proof {
                assert(rest.len() == 0);
            }
            start = end;
        } else {
            start = end + 1;
        }
    }
    spans
}

/// Whether `path` names `root` itself or something below it: both are
/// rooted or neither is, the components of `root` are the first components
/// of `path`, one by one, and none of the components that follow steps
/// back to a parent. A path that only starts with the same characters,
/// such as a sibling whose name is longer, is not within.
pub open spec fn within(root: Seq<char>, path: Seq<char>) -> bool {
    let r = components(root);
    let p = components(path);
    &&& is_rooted(root) == is_rooted(path)
    &&& r.len() <= p.len()
    &&& forall|i: int| 0 <= i < r.len() ==> p[i] == r[i]
    &&& forall|i: int| r.len() <= i < p.len() ==> !is_parent_ref(p[i])
}

/// A run that ends inside a text ends at the same place in every text
/// that starts with that text.
proof fn lemma_run_in_prefix(x: Seq<char>, y: Seq<char>, from: int)
    requires
        0 <= from <= x.len() <= y.len(),
        forall|i: int| 0 <= i < x.len() ==> x[i] == y[i],
        from + run_len(x, from, '/') < x.len(),
    ensures
        run_len(y, from, '/') == run_len(x, from, '/'),
    decreases x.len() - from,
{
    if from < x.len() && x[from] != '/' {
        lemma_run_in_prefix(x, y, from + 1);
    }
}

/// A run that reaches the end of a text goes on in a longer text whose
/// next character is no separator.
proof fn lemma_run_past_prefix(x: Seq<char>, y: Seq<char>, from: int)
    requires
        0 <= from <= x.len() < y.len(),
        forall|i: int| 0 <= i < x.len() ==> x[i] == y[i],
        from + run_len(x, from, '/') == x.len(),
        y[x.len() as int] != '/',
    ensures
        from + run_len(y, from, '/') > x.len(),
    decreases x.len() - from,
{
    if from < x.len() {
        assert(x[from] != '/');
        lemma_run_in_prefix_step(x, from);
        lemma_run_past_prefix(x, y, from + 1);
    }
}

/// A run that starts at a character which is no separator is one longer
/// than the run that starts behind it.
proof fn lemma_run_in_prefix_step(x: Seq<char>, from: int)
    requires
        0 <= from < x.len(),
        x[from] != '/',
    ensures
        run_len(x, from, '/') == 1 + run_len(x, from + 1, '/'),
{
}

/// The last component of `x` is longer in `x + more`, from any place where
/// a segment of `x` starts.
proof fn lemma_last_component_grows(x: Seq<char>, more: Seq<char>, from: int)
    requires
        0 <= from < x.len(),
        from == 0 || x[from - 1] == '/',
        x.last() != '/',
        x.last() == '.' ==> x.len() >= 2 && x[x.len() - 2] != '/',
        more.len() > 0,
        more[0] != '/',
    ensures
        ({
            let cx = components_from(x, from);
            let cy = components_from(x + more, from);
            cx.len() >= 1 && cy.len() >= cx.len() && cy[cx.len() - 1] != cx[cx.len() - 1]
        }),
    decreases x.len() - from,
{
    let y = x + more;
    let e = from + run_len(x, from, '/');
    lemma_run_len_bound(x, from, '/');
    lemma_run_len_bound(y, from, '/');
    let cx = components_from(x, from);
    let cy = components_from(y, from);
    if e < x.len() {
        lemma_run_in_prefix(x, y, from);
        lemma_run_ends_at_stop(x, from);
        assert(x.subrange(from, e) =~= y.subrange(from, e));
        assert(e + 1 < x.len()) by {
            if e + 1 == x.len() {
                assert(x.last() == x[e]);
            }
        }
        lemma_last_component_grows(x, more, e + 1);
        let rx = components_from(x, e + 1);
        let ry = components_from(y, e + 1);
        if is_component(x.subrange(from, e)) {
            assert(cx == seq![x.subrange(from, e)] + rx);
            assert(cy == seq![x.subrange(from, e)] + ry);
            assert(cx[cx.len() - 1] == rx[rx.len() - 1]);
            assert(cy[cx.len() - 1] == ry[rx.len() - 1]);
        } else {
            assert(cx == rx);
            assert(cy == ry);
        }
    } else {
        lemma_run_past_prefix(x, y, from);
        let f = from + run_len(y, from, '/');
        let sx = x.subrange(from, e);
        let sy = y.subrange(from, f);
        assert(sx.len() >= 1);
        assert(sy.len() > sx.len());
        assert(is_component(sx)) by {
            if sx =~= seq!['.'] {
                assert(sx[0] == x[from]);
                assert(from == x.len() - 1);
            }
        }
        assert(is_component(sy)) by {
            assert(seq!['.'].len() == 1);
        }
        assert(components_from(x, e + 1) =~= Seq::<Seq<char>>::empty());
        assert(cx =~= seq![sx]);
        assert(cy == seq![sy] + components_from(y, f + 1));
        assert(cy[0] == sy);
    }
}

/// Where a run stops before the end, a separator stands.
proof fn lemma_run_ends_at_stop(x: Seq<char>, from: int)
    requires
        0 <= from <= x.len(),
        from + run_len(x, from, '/') < x.len(),
    ensures
        x[from + run_len(x, from, '/')] == '/',
    decreases x.len() - from,
{
    if from < x.len() && x[from] != '/' {
        lemma_run_ends_at_stop(x, from + 1);
    }
}

/// Containment goes by whole components: a path that continues the last
/// name of the root, as `/srv/root-evil` continues `/srv/root`, is not
/// within the root, although its text starts with the root's text. The
/// root is taken to end in a name.
pub proof fn lemma_longer_name_is_outside(root: Seq<char>, more: Seq<char>)
    requires
        root.len() > 0,
        root.last() != '/',
        root.last() == '.' ==> root.len() >= 2 && root[root.len() - 2] != '/',
        more.len() > 0,
        more[0] != '/',
    ensures
        !within(root, root + more),
{
    lemma_last_component_grows(root, more, 0);
}

/// Whether two spans of two texts hold the same characters.
fn same_span(a: &Vec<char>, sa: (usize, usize), b: &Vec<char>, sb: (usize, usize)) -> (r: bool)
    requires
        sa.0 <= sa.1 <= a.len(),
        sb.0 <= sb.1 <= b.len(),
    ensures
        r == (a@.subrange(sa.0 as int, sa.1 as int) == b@.subrange(sb.0 as int, sb.1 as int)),
{
    let ghost x = a@.subrange(sa.0 as int, sa.1 as int);
    let ghost y = b@.subrange(sb.0 as int, sb.1 as int);
    if sa.1 - sa.0 != sb.1 - sb.0 {
        assert(x.len() != y.len());
        return false;
    }
    let n = sa.1 - sa.0;
    let mut i: usize = 0;
    while i < n
        invariant
            i <= n,
            n == sa.1 - sa.0,
            n == sb.1 - sb.0,
            sa.1 <= a.len(),
            sb.1 <= b.len(),
            x == a@.subrange(sa.0 as int, sa.1 as int),
            y == b@.subrange(sb.0 as int, sb.1 as int),
            forall|k: int| 0 <= k < i ==> x[k] == y[k],
        decreases n - i,
    {
        if a[sa.0 + i] != b[sb.0 + i] {
            assert(x[i as int] != y[i as int]);
            return false;
        }
        i += 1;
    }
    assert(x =~= y);
    true
}

/// Whether the span holds `..`.
fn is_parent_span(a: &Vec<char>, s: (usize, usize)) -> (r: bool)
    requires
        s.0 <= s.1 <= a.len(),
    ensures
        r == is_parent_ref(a@.subrange(s.0 as int, s.1 as int)),
{
    let ghost x = a@.subrange(s.0 as int, s.1 as int);
    let ghost dots = seq!['.', '.'];
    assert(dots.len() == 2 && dots[0] == '.' && dots[1] == '.');
    if s.1 - s.0 == 2 && a[s.0] == '.' && a[s.0 + 1] == '.' {
        assert(x =~= seq!['.', '.']);
        true
    } else {
        if s.1 - s.0 == 2 {
            assert(x[0] == a@[s.0 as int] && x[1] == a@[s.0 + 1]);
        }
        false
    }
}

/// Decides whether `path` is within `root`.
pub fn is_within(root: &str, path: &str) -> (r: bool)
    ensures
        r == within(root@, path@),
{
    let rc = chars_of(root);
    let pc = chars_of(path);
    let root_rooted = rc.len() > 0 && rc[0] == '/';
    let path_rooted = pc.len() > 0 && pc[0] == '/';
    if root_rooted != path_rooted {
        return false;
    }
    let rs = component_spans(&rc);
    let ps = component_spans(&pc);
    if rs.len() > ps.len() {
        return false;
    }
    let ghost r = components(root@);
    let ghost p = components(path@);
    let mut i: usize = 0;
    while i < rs.len()
        invariant
            i <= rs.len() <= ps.len(),
            rc@ == root@,
            pc@ == path@,
            r == components(root@),
            p == components(path@),
            rs@.len() == r.len(),
            ps@.len() == p.len(),
            forall|k: int|
                0 <= k < rs@.len() ==> (#[trigger] rs@[k]).0 <= rs@[k].1 <= rc@.len()
                    && rc@.subrange(rs@[k].0 as int, rs@[k].1 as int) == r[k],
            forall|k: int|
                0 <= k < ps@.len() ==> (#[trigger] ps@[k]).0 <= ps@[k].1 <= pc@.len()
                    && pc@.subrange(ps@[k].0 as int, ps@[k].1 as int) == p[k],
            forall|k: int| 0 <= k < i ==> p[k] == r[k],
        decreases rs.len() - i,
    {
        if !same_span(&rc, rs[i], &pc, ps[i]) {
            assert(p[i as int] != r[i as int]);
            return false;
        }
        i += 1;
    }
    while i < ps.len()
        invariant
            rs.len() <= i <= ps.len(),
            pc@ == path@,
            r == components(root@),
            p == components(path@),
            rs@.len() == r.len(),
            ps@.len() == p.len(),
            forall|k: int|
                0 <= k < ps@.len() ==> (#[trigger] ps@[k]).0 <= ps@[k].1 <= pc@.len()
                    && pc@.subrange(ps@[k].0 as int, ps@[k].1 as int) == p[k],
            forall|k: int| rs.len() <= k < i ==> !is_parent_ref(p[k]),
        decreases ps.len() - i,
    {
        if is_parent_span(&pc, ps[i]) {
            assert(is_parent_ref(p[i as int]));
            return false;
        }
        i += 1;
    }
    true
}

/// Appends `chars[from..to]` to `s`.
fn push_span(s: &mut String, chars: &Vec<char>, from: usize, to: usize)
    requires
        from <= to <= chars.len(),
    ensures
        final(s)@ == old(s)@ + chars@.subrange(from as int, to as int),
{
    let mut i: usize = from;
    while i < to
        invariant
            from <= i <= to <= chars.len(),
            s@ == old(s)@ + chars@.subrange(from as int, i as int),
        decreases to - i,
    {
        s.push(chars[i]);
        proof {
            assert(chars@.subrange(from as int, i + 1) =~= chars@.subrange(from as int, i as int).push(
                chars@[i as int],
            ));
        }
        i += 1;
    }
}

/// The final component of a path, if it has one that names an entry: a
/// path without components, or one that ends in `..`, has none.
pub open spec fn file_name(path: Seq<char>) -> Option<Seq<char>> {
    let c = components(path);
    if c.len() == 0 || is_parent_ref(c.last()) {
        None
    } else {
        Some(c.last())
    }
}

/// The text of a path with the given components.
pub open spec fn path_text(rooted: bool, comps: Seq<Seq<char>>) -> Seq<char>
    decreases comps.len(),
{
    let lead = if rooted {
        seq!['/']
    } else {
        Seq::empty()
    };
    if comps.len() == 0 {
        lead
    } else if comps.len() == 1 {
        lead + comps[0]
    } else {
        path_text(rooted, comps.drop_last()) + seq!['/'] + comps.last()
    }
}

/// The path without its final component, if it has a component.
pub open spec fn parent(path: Seq<char>) -> Option<Seq<char>> {
    let c = components(path);
    if c.len() == 0 {
        None
    } else {
        Some(path_text(is_rooted(path), c.drop_last()))
    }
}

/// Reads the final component of `path`.
pub fn file_name_of(path: &str) -> (r: Option<String>)
    ensures
        match file_name(path@) {
            Some(n) => r matches Some(found) && found@ == n,
            None => r is None,
        },
{
    let chars = chars_of(path);
    let spans = component_spans(&chars);
    if spans.len() == 0 {
        return None;
    }
    let last = spans[spans.len() - 1];
    if is_parent_span(&chars, last) {
        None
    } else {
        Some(string_of(&chars, last.0, last.1))
    }
}

/// Builds the path that lacks the final component of `path`.
pub fn parent_of(path: &str) -> (r: Option<String>)
    ensures
        match parent(path@) {
            Some(p) => r matches Some(found) && found@ == p,
            None => r is None,
        },
{
    let chars = chars_of(path);
    let spans = component_spans(&chars);
    if spans.len() == 0 {
        return None;
    }
    let rooted = chars.len() > 0 && chars[0] == '/';
    let n = spans.len() - 1;
    let ghost kept = components(path@).drop_last();
    let mut text = String::new();
    if rooted {
        text.push('/');
    }
    assert(text@ =~= path_text(rooted, kept.take(0)));
    let mut i: usize = 0;
    while i < n
        invariant
            i <= n,
            n + 1 == spans.len(),
            chars@ == path@,
            kept == components(path@).drop_last(),
            spans@.len() == components(path@).len(),
            forall|k: int|
                0 <= k < spans@.len() ==> (#[trigger] spans@[k]).0 <= spans@[k].1 <= chars@.len()
                    && chars@.subrange(spans@[k].0 as int, spans@[k].1 as int) == components(
                    path@,
                )[k],
            text@ == path_text(rooted, kept.take(i as int)),
        decreases n - i,
    {
        let ghost before = kept.take(i as int);
        let ghost after = kept.take(i + 1);
        proof {
            assert(after.drop_last() =~= before);
            assert(after.last() == components(path@)[i as int]);
            assert(before.len() == 0 ==> after[0] == after.last());
        }
        if i > 0 {
            text.push('/');
        }
        push_span(&mut text, &chars, spans[i].0, spans[i].1);
        i += 1;
    }
    assert(kept.take(n as int) =~= kept);
    Some(text)
}

/// The index at which `c` stands last in `s`, or -1 where it does not occur.
pub open spec fn last_index_of(s: Seq<char>, c: char) -> int
    decreases s.len(),
{
    if s.len() == 0 {
        -1
    } else if s.last() == c {
        s.len() - 1
    } else {
        last_index_of(s.drop_last(), c)
    }
}

/// The extension of a file name: what follows its last `.`, unless the
/// name has no `.` or only the one it starts with.
pub open spec fn extension_in(name: Seq<char>) -> Option<Seq<char>> {
    let dot = last_index_of(name, '.');
    if dot <= 0 {
        None
    } else {
        Some(name.skip(dot + 1))
    }
}

/// The extension of a path: that of its final component.
pub open spec fn extension(path: Seq<char>) -> Option<Seq<char>> {
    match file_name(path) {
        Some(name) => extension_in(name),
        None => None,
    }
}

/// Reads the extension of `path`.
pub fn extension_of(path: &str) -> (r: Option<String>)
    ensures
        match extension(path@) {
            Some(e) => r matches Some(found) && found@ == e,
            None => r is None,
        },
{
    let chars = chars_of(path);
    let spans = component_spans(&chars);
    if spans.len() == 0 {
        return None;
    }
    let last = spans[spans.len() - 1];
    if is_parent_span(&chars, last) {
        return None;
    }
    let ghost name = chars@.subrange(last.0 as int, last.1 as int);
    assert(file_name(path@) == Some(name));
    let mut i: usize = last.1;
    proof {
        assert(name.take(name.len() as int) =~= name);
    }
    while i > last.0 && chars[i - 1] != '.'
        invariant
            last.0 <= i <= last.1 <= chars.len(),
            name == chars@.subrange(last.0 as int, last.1 as int),
            last_index_of(name, '.') == last_index_of(name.take(i - last.0), '.'),
        decreases i,
    {
        proof {
            let cut = name.take(i - last.0);
            assert(cut.last() == chars@[i - 1]);
            assert(cut.drop_last() =~= name.take(i - 1 - last.0));
        }
        i -= 1;
    }
    proof {
        let cut = name.take(i - last.0);
        if i > last.0 {
            assert(cut.last() == chars@[i - 1]);
            assert(last_index_of(name, '.') == i - 1 - last.0);
        } else {
            assert(last_index_of(name, '.') == -1);
        }
    }
    if i - last.0 <= 1 {
        None
    } else {
        proof {
            assert(name.skip(i - last.0) =~= chars@.subrange(i as int, last.1 as int));
        }
        Some(string_of(&chars, i, last.1))
    }
}

/// How many `c` stand at the start of `s`.
pub open spec fn leading(s: Seq<char>, c: char) -> nat
    decreases s.len(),
{
    if s.len() > 0 && s[0] == c {
        1 + leading(s.skip(1), c)
    } else {
        0
    }
}

/// A request without the separators it starts with: a rooted request is
/// read from the workspace's root, never from the file system's.
pub open spec fn unrooted(relative: Seq<char>) -> Seq<char> {
    relative.skip(leading(relative, '/') as int)
}

/// `rest` appended below `base`, with one separator between them unless
/// `base` is empty or ends in one.
pub open spec fn child(base: Seq<char>, rest: Seq<char>) -> Seq<char> {
    if base.len() == 0 || base.last() == '/' {
        base + rest
    } else {
        base + seq!['/'] + rest
    }
}

/// A request names the same target with and without a separator in
/// front of it: what starts at the file system's root is read from the
/// workspace's root all the same.
pub proof fn lemma_rooted_request_is_relative(root: Seq<char>, relative: Seq<char>)
    ensures
        unrooted(seq!['/'] + relative) == unrooted(relative),
        child(root, unrooted(seq!['/'] + relative)) == child(root, unrooted(relative)),
{
    let rooted = seq!['/'] + relative;
    assert(rooted.skip(1) =~= relative);
    assert(leading(rooted, '/') == 1 + leading(relative, '/'));
    lemma_leading_bound(relative, '/');
    let k = leading(relative, '/') as int;
    assert(rooted.skip(1 + k) =~= relative.skip(k));
}

/// There are no more leading characters than characters.
pub proof fn lemma_leading_bound(s: Seq<char>, c: char)
    ensures
        leading(s, c) <= s.len(),
    decreases s.len(),
{
    if s.len() > 0 && s[0] == c {
        lemma_leading_bound(s.skip(1), c);
    }
}

/// Appends `rest[from..]` below `base`.
fn join_from(base: &str, rest: &Vec<char>, from: usize) -> (r: String)
    requires
        from <= rest.len(),
    ensures
        r@ == child(base@, rest@.skip(from as int)),
{
    let b = chars_of(base);
    let mut text = String::new();
    push_span(&mut text, &b, 0, b.len());
    assert(text@ =~= base@);
    if b.len() > 0 && b[b.len() - 1] != '/' {
        text.push('/');
    }
    let ghost lead = text@;
    push_span(&mut text, rest, from, rest.len());
    proof {
        assert(rest@.subrange(from as int, rest@.len() as int) =~= rest@.skip(from as int));
        assert(text@ =~= child(base@, rest@.skip(from as int)));
    }
    text
}

/// The path of `name` below `base`.
pub fn child_of(base: &str, name: &str) -> (r: String)
    ensures
        r@ == child(base@, name@),
{
    let n = chars_of(name);
    proof {
        assert(n@.skip(0) =~= n@);
    }
    join_from(base, &n, 0)
}

/// The path below `root` that a request names: the request is appended to
/// the root without the separators it starts with.
pub fn join_under(root: &str, relative: &str) -> (r: String)
    ensures
        r@ == child(root@, unrooted(relative@)),
{
    let rel = chars_of(relative);
    let mut k: usize = 0;
    proof {
        assert(rel@.skip(0) =~= rel@);
    }
    while k < rel.len() && rel[k] == '/'
        invariant
            k <= rel.len(),
            leading(rel@, '/') == k + leading(rel@.skip(k as int), '/'),
        decreases rel.len() - k,
    {
        proof {
            assert(rel@.skip(k as int).skip(1) =~= rel@.skip(k + 1));
        }
        k += 1;
    }
    proof {
        if k < rel.len() {
            assert(rel@.skip(k as int)[0] == rel@[k as int]);
        }
        assert(leading(rel@, '/') == k);
    }
    join_from(root, &rel, k)
}

} // verus!
