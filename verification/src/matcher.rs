//! Matching of source trees against pattern trees.
use crate::pattern::{
    group_text, role_matches, root_wrapper_kind, statement_kind, Captures, ContextSpec,
};
use crate::scan::SpecialKind;
use crate::snippet::{RepetitionInfo, RepetitionKind};
use crate::strmap::StrMap;
use crate::text::{has_prefix, has_suffix, same_text, texts};
use crate::tree::{
    all_fit, lemma_named_fit, lemma_named_size, lemma_size_drop_first, models, span_text_in,
    total_size, SyntaxNode,
};
use vstd::prelude::*;
use vstd::string::*;

verus! {

/// Whether a node kind wraps a whole file.
pub fn is_root_wrapper(kind: &str) -> (r: bool)
    ensures
        r == root_wrapper_kind(kind@),
{
    same_text(kind, "program") || same_text(kind, "module")
}

/// Whether a node kind represents a statement.
pub fn is_statement_kind(kind: &str) -> (r: bool)
    ensures
        r == statement_kind(kind@),
{
    has_suffix(kind, "_statement") || same_text(kind, "block") || same_text(
        kind,
        "local_variable_declaration",
    ) || same_text(kind, "switch_block_statement_group") || same_text(kind, "labeled_statement")
}

/// Whether a node of this kind has the role of a special placeholder.
fn has_role(special: SpecialKind, kind: &str) -> (r: bool)
    ensures
        r == role_matches(special, kind@),
{
    match special {
        SpecialKind::Body => is_statement_kind(kind),
        SpecialKind::Stmt => is_statement_kind(kind),
        SpecialKind::Expr => !is_statement_kind(kind) && !is_root_wrapper(kind),
    }
}

/// What matching depends on besides the two trees.
pub struct MatchCtx<'a> {
    pub source_text: &'a str,
    pub pattern_text: &'a str,
    pub reverse_placeholders: &'a StrMap<String>,
    pub repetitions: &'a StrMap<RepetitionInfo>,
    pub specials: &'a StrMap<SpecialKind>,
    pub type_constraints: &'a StrMap<String>,
}

impl<'a> View for MatchCtx<'a> {
    type V = ContextSpec;

    open spec fn view(&self) -> ContextSpec {
        ContextSpec {
            source_text: self.source_text@,
            pattern_text: self.pattern_text@,
            reverse_placeholders: self.reverse_placeholders@,
            repetitions: self.repetitions@,
            specials: self.specials@,
            type_constraints: self.type_constraints@,
        }
    }
}

/// The captures of a match, if there is one.
pub open spec fn outcome(r: Option<StrMap<String>>) -> Option<Captures> {
    match r {
        Some(captures) => Some(captures@),
        None => None,
    }
}

/// Whether a pattern node is a leaf whose text begins with the prefix `_pw_`, which is reserved
/// for sentinels.
pub fn is_placeholder(pattern_node: &SyntaxNode, ctx: &MatchCtx) -> (r: bool)
    requires
        pattern_node@.fits(ctx.pattern_text@),
    ensures
        r == ctx@.is_placeholder(pattern_node@),
{
    if !pattern_node.named || named_child_count(pattern_node) != 0 {
        return false;
    }
    has_prefix(pattern_node.text_in(ctx.pattern_text), "_pw_")
}

/// The number of named children.
fn named_child_count(node: &SyntaxNode) -> (r: usize)
    ensures
        r == node@.named_children().len(),
{
    let named = node.named_children();
    assert(models(named@).len() == named@.len());
    named.len()
}

/// Whether a pattern node is a leaf that stands for any number of consecutive children.
///
/// Where a parser wraps the sentinel in a statement, `$($name)*` serves instead.
pub fn is_multi_placeholder(node: &SyntaxNode, ctx: &MatchCtx) -> (r: bool)
    requires
        node@.fits(ctx.pattern_text@),
    ensures
        r == ctx@.is_multi_placeholder(node@),
{
    if !node.named || named_child_count(node) != 0 {
        return false;
    }
    match ctx.repetitions.get(node.text_in(ctx.pattern_text)) {
        Some(info) => info.kind == RepetitionKind::MultiChild,
        None => false,
    }
}

/// The text of the only child of a node around a leaf.
pub fn inner_sentinel<'a>(node: &SyntaxNode, ctx: &MatchCtx<'a>) -> (r: Option<&'a str>)
    requires
        node@.fits(ctx.pattern_text@),
    ensures
        r is Some <==> ctx@.inner_sentinel(node@) is Some,
        r matches Some(sentinel) ==> ctx@.inner_sentinel(node@) == Some(sentinel@),
{
    let named = node.named_children();
    proof {
        lemma_named_fit(node@.children, ctx.pattern_text@);
        assert(models(named@).len() == named@.len());
    }
    if named.len() == 1 {
        let child = named[0];
        assert(models(named@)[0] == child@);
        if named_child_count(child) == 0 {
            return Some(child.text_in(ctx.pattern_text));
        }
    }
    None
}

/// The special placeholder that a node is wrapped around, as a statement is around `$BODY`.
pub fn wraps_special(node: &SyntaxNode, ctx: &MatchCtx) -> (r: Option<SpecialKind>)
    requires
        node@.fits(ctx.pattern_text@),
    ensures
        r == ctx@.wraps_special(node@),
{
    match inner_sentinel(node, ctx) {
        Some(sentinel) => match ctx.specials.get(sentinel) {
            Some(kind) => Some(*kind),
            None => None,
        },
        None => None,
    }
}

/// The sentinel of a pattern child that can take the place of any number of children.
fn span_sentinel<'a>(node: &SyntaxNode, ctx: &MatchCtx<'a>) -> (r: Option<&'a str>)
    requires
        node@.fits(ctx.pattern_text@),
    ensures
        r is Some <==> ctx@.span_sentinel(node@) is Some,
        r matches Some(sentinel) ==> ctx@.span_sentinel(node@) == Some(sentinel@),
{
    if let Some(SpecialKind::Body) = wraps_special(node, ctx) {
        return inner_sentinel(node, ctx);
    }
    if is_multi_placeholder(node, ctx) {
        return Some(node.text_in(ctx.pattern_text));
    }
    None
}

/// Whether a pattern child takes as many children as `op` says.
fn has_span_op(node: &SyntaxNode, op: &str, ctx: &MatchCtx) -> (r: bool)
    requires
        node@.fits(ctx.pattern_text@),
    ensures
        r == (ctx@.span_op(node@) == op@),
{
    if let Some(SpecialKind::Body) = wraps_special(node, ctx) {
        return same_text("*", op);
    }
    if is_multi_placeholder(node, ctx) {
        if let Some(info) = ctx.repetitions.get(node.text_in(ctx.pattern_text)) {
            return same_text(info.op.as_str(), op);
        }
    }
    same_text("*", op)
}

/// Whether one of some pattern children can take the place of any number of children.
fn has_span(children: &Vec<&SyntaxNode>, ctx: &MatchCtx) -> (r: bool)
    requires
        all_fit(models(children@), ctx.pattern_text@),
    ensures
        r == ctx@.has_span(models(children@)),
{
    let ghost ps = models(children@);
    let mut i: usize = 0;
    while i < children.len()
        invariant
            i <= children@.len(),
            ps == models(children@),
            all_fit(ps, ctx.pattern_text@),
            forall|j: int| 0 <= j < i ==> ctx@.span_sentinel(#[trigger] ps[j]) is None,
        decreases children.len() - i,
    {
        assert(ps[i as int] == children@[i as int]@);
        if span_sentinel(children[i], ctx).is_some() {
            return true;
        }
        i = i + 1;
    }
    false
}

/// The sentinel and the repetition that the last named child of `parent` stands for.
pub fn last_child_repetition<'a>(parent: &SyntaxNode, ctx: &MatchCtx<'a>) -> (r: Option<
    (&'a str, &'a RepetitionInfo),
>)
    requires
        parent@.fits(ctx.pattern_text@),
    ensures
        r is Some <==> ctx@.last_child_repetition(parent@) is Some,
        r matches Some((sentinel, info)) ==> ctx@.last_child_repetition(parent@) == Some(
            (sentinel@, info@),
        ),
{
    let children = parent.named_children();
    proof {
        lemma_named_fit(parent@.children, ctx.pattern_text@);
        assert(models(children@).len() == children@.len());
    }
    if children.len() == 0 {
        return None;
    }
    let last = children[children.len() - 1];
    proof {
        assert(models(children@).last() == last@);
        assert(models(children@)[children@.len() - 1].fits(ctx.pattern_text@));
    }
    if !is_placeholder(last, ctx) {
        return None;
    }
    let sentinel = last.text_in(ctx.pattern_text);
    match ctx.repetitions.get(sentinel) {
        Some(info) => if info.kind == RepetitionKind::LastChild {
            Some((sentinel, info))
        } else {
            None
        },
        None => None,
    }
}

/// Records what the placeholder with a sentinel has matched, if it has a name.
fn record(captures: &mut StrMap<String>, sentinel: &str, text: String, ctx: &MatchCtx)
    ensures
        final(captures)@ == ctx@.capture(old(captures)@, sentinel@, text@),
{
    if let Some(name) = ctx.reverse_placeholders.get(sentinel) {
        captures.insert(name.clone(), text);
    }
}

/// The texts of those nodes that fall to `sentinel`, put together.
fn group_text_in(
    text: &str,
    nodes: &Vec<&SyntaxNode>,
    from: usize,
    group: &Vec<String>,
    sentinel: &str,
) -> (r: String)
    requires
        all_fit(models(nodes@), text@),
        from <= nodes@.len(),
        group@.len() > 0,
    ensures
        r@ == group_text(text@, models(nodes@).skip(from as int), texts(group@), sentinel@),
{
    let ghost extra = models(nodes@).skip(from as int);
    let mut r = String::new();
    let mut i: usize = from;
    assert(extra.take(0).len() == 0);
    while i < nodes.len()
        invariant
            from <= i <= nodes@.len(),
            extra == models(nodes@).skip(from as int),
            all_fit(models(nodes@), text@),
            group@.len() > 0,
            r@ == group_text(text@, extra.take(i - from), texts(group@), sentinel@),
        decreases nodes.len() - i,
    {
        let j: usize = (i - from) % group.len();
        let node = nodes[i];
        proof {
            assert(extra.take(i + 1 - from).drop_last() =~= extra.take(i - from));
            assert(models(nodes@)[i as int] == node@);
            assert(extra.take(i + 1 - from).last() == node@);
            assert(texts(group@)[j as int] == group@[j as int]@);
        }
        if same_text(group[j].as_str(), sentinel) {
            r.append(node.text_in(text));
        }
        i = i + 1;
    }
    assert(extra.take(i - from) =~= extra);
    r
}

/// Adds what a repetition captures of the named children from `from` on.
fn record_repetition(
    mut captures: StrMap<String>,
    sentinel: &str,
    group: &Vec<String>,
    nodes: &Vec<&SyntaxNode>,
    from: usize,
    ctx: &MatchCtx,
) -> (r: Option<StrMap<String>>)
    requires
        all_fit(models(nodes@), ctx.source_text@),
        from <= nodes@.len(),
    ensures
        outcome(r) == ctx@.repetition_captures(
            sentinel@,
            texts(group@),
            models(nodes@).skip(from as int),
            captures@,
        ),
{
    let ghost extra = models(nodes@).skip(from as int);
    let ghost before = captures@;
    if group.len() == 0 {
        let text = span_text_in(ctx.source_text, nodes, from, nodes.len());
        assert(models(nodes@).subrange(from as int, nodes@.len() as int) =~= extra);
        record(&mut captures, sentinel, text, ctx);
        return Some(captures);
    }
    let count: usize = nodes.len() - from;
    if count % group.len() != 0 {
        return None;
    }
    let mut j: usize = 0;
    while j < group.len()
        invariant
            j <= group@.len(),
            group@.len() > 0,
            from <= nodes@.len(),
            all_fit(models(nodes@), ctx.source_text@),
            extra == models(nodes@).skip(from as int),
            captures@ == ctx@.capture_groups(before, texts(group@), extra, j as nat),
        decreases group.len() - j,
    {
        let text = group_text_in(ctx.source_text, nodes, from, group, group[j].as_str());
        assert(texts(group@)[j as int] == group@[j as int]@);
        record(&mut captures, group[j].as_str(), text, ctx);
        j = j + 1;
    }
    Some(captures)
}

/// Checks whether a source node matches a pattern node, and adds what the placeholders in
/// the pattern match to the captures.
///
/// Named leaves match by their text; `$name` matches any single node; `$($name)sep*` and its
/// kin match repetitions as the last child.
pub fn structurally_matches(
    source_node: &SyntaxNode,
    pattern_node: &SyntaxNode,
    mut captures: StrMap<String>,
    ctx: &MatchCtx,
) -> (r: Option<StrMap<String>>)
    requires
        source_node@.fits(ctx.source_text@),
        pattern_node@.fits(ctx.pattern_text@),
    ensures
        outcome(r) == ctx@.node_matches(source_node@, pattern_node@, captures@),
    decreases pattern_node@.size(), 0nat,
{
    if is_placeholder(pattern_node, ctx) {
        let sentinel = pattern_node.text_in(ctx.pattern_text);
        if let Some(kind) = ctx.type_constraints.get(sentinel) {
            if !same_text(source_node.kind.as_str(), kind.as_str()) {
                return None;
            }
        }
        let matched = source_node.text_in(ctx.source_text).to_owned();
        record(&mut captures, sentinel, matched, ctx);
        return Some(captures);
    }
    if !same_text(source_node.kind.as_str(), pattern_node.kind.as_str()) {
        if let Some(special) = wraps_special(pattern_node, ctx) {
            if has_role(special, source_node.kind.as_str()) {
                if let Some(sentinel) = inner_sentinel(pattern_node, ctx) {
                    let matched = source_node.text_in(ctx.source_text).to_owned();
                    record(&mut captures, sentinel, matched, ctx);
                }
                return Some(captures);
            }
        }
        return None;
    }
    let s_children = source_node.named_children();
    let p_children = pattern_node.named_children();
    let ghost ss = source_node@.named_children();
    let ghost ps = pattern_node@.named_children();
    proof {
        lemma_named_fit(source_node@.children, ctx.source_text@);
        lemma_named_fit(pattern_node@.children, ctx.pattern_text@);
        lemma_named_size(pattern_node@.children);
        assert(ss.len() == s_children@.len());
        assert(ps.len() == p_children@.len());
    }
    if let Some((sentinel, info)) = last_child_repetition(pattern_node, ctx) {
        let fixed: usize = p_children.len() - 1;
        if s_children.len() < fixed {
            return None;
        }
        let matched_count: usize = s_children.len() - fixed;
        if same_text(info.op.as_str(), "+") && matched_count == 0 {
            return None;
        }
        let once: usize = if info.sub_sentinels.len() > 0 { info.sub_sentinels.len() } else { 1 };
        if same_text(info.op.as_str(), "?") && matched_count > once {
            return None;
        }
        return match match_fixed_children(&s_children, &p_children, fixed, captures, ctx) {
            Some(found) => record_repetition(
                found,
                sentinel,
                &info.sub_sentinels,
                &s_children,
                fixed,
                ctx,
            ),
            None => None,
        };
    }
    if !has_span(&p_children, ctx) {
        if p_children.len() != s_children.len() {
            return None;
        }
        if p_children.len() == 0 {
            if pattern_node.named && !leaf_matches(source_node, pattern_node, ctx) {
                return None;
            }
            return Some(captures);
        }
    }
    proof {
        assert(ss.skip(0) =~= ss);
        assert(ps.skip(0) =~= ps);
    }
    match_children_suffix(&s_children, &p_children, 0, 0, captures, ctx)
}

/// Whether two leaves have the same text.
fn leaf_matches(source_node: &SyntaxNode, pattern_node: &SyntaxNode, ctx: &MatchCtx) -> (r: bool)
    requires
        source_node@.fits(ctx.source_text@),
        pattern_node@.fits(ctx.pattern_text@),
    ensures
        r == (pattern_node@.text(ctx.pattern_text@) == source_node@.text(ctx.source_text@)),
{
    same_text(pattern_node.text_in(ctx.pattern_text), source_node.text_in(ctx.source_text))
}

/// Matches the first `count` children of both sides one by one.
fn match_fixed_children(
    s_children: &Vec<&SyntaxNode>,
    p_children: &Vec<&SyntaxNode>,
    count: usize,
    captures: StrMap<String>,
    ctx: &MatchCtx,
) -> (r: Option<StrMap<String>>)
    requires
        all_fit(models(s_children@), ctx.source_text@),
        all_fit(models(p_children@), ctx.pattern_text@),
        count <= s_children@.len(),
        count <= p_children@.len(),
    ensures
        outcome(r) == ctx@.each_matches(
            models(s_children@),
            models(p_children@),
            count as nat,
            captures@,
        ),
    decreases total_size(models(p_children@)), 1nat,
{
    let ghost ss = models(s_children@);
    let ghost ps = models(p_children@);
    let ghost whole = ctx@.each_matches(ss, ps, count as nat, captures@);
    let mut found = captures;
    let mut i: usize = 0;
    proof {
        assert(ss.skip(0) =~= ss);
        assert(ps.skip(0) =~= ps);
    }
    while i < count
        invariant
            i <= count,
            count <= s_children@.len(),
            count <= p_children@.len(),
                ss == models(s_children@),
            ps == models(p_children@),
            all_fit(ss, ctx.source_text@),
            all_fit(ps, ctx.pattern_text@),
            total_size(ps.skip(i as int)) <= total_size(ps),
            whole == ctx@.each_matches(ss, ps, count as nat, captures@),
            whole == ctx@.each_matches(
                ss.skip(i as int),
                ps.skip(i as int),
                (count - i) as nat,
                found@,
            ),
        decreases count - i,
    {
        let s_child = s_children[i];
        let p_child = p_children[i];
        proof {
            assert(ss[i as int] == s_child@);
            assert(ps[i as int] == p_child@);
            lemma_size_drop_first(ps.skip(i as int));
            assert(ss.skip(i as int).drop_first() =~= ss.skip(i + 1));
            assert(ps.skip(i as int).drop_first() =~= ps.skip(i + 1));
        }
        match structurally_matches(s_child, p_child, found, ctx) {
            Some(next) => {
                found = next;
            },
            None => {
                return None;
            },
        }
        i = i + 1;
    }
    Some(found)
}

/// Matches the pattern children from `pi` on against the source children from `si` on. A
/// placeholder that spans several children takes as few as it can, and more where the rest
/// does not match otherwise; `+` and `?` bound how many it takes.
pub fn match_children_suffix(
    s_children: &Vec<&SyntaxNode>,
    p_children: &Vec<&SyntaxNode>,
    si: usize,
    pi: usize,
    captures: StrMap<String>,
    ctx: &MatchCtx,
) -> (r: Option<StrMap<String>>)
    requires
        all_fit(models(s_children@), ctx.source_text@),
        all_fit(models(p_children@), ctx.pattern_text@),
        si <= s_children@.len(),
        pi <= p_children@.len(),
    ensures
        outcome(r) == ctx@.children_match(
            models(s_children@).skip(si as int),
            models(p_children@).skip(pi as int),
            captures@,
        ),
    decreases total_size(models(p_children@).skip(pi as int)), 2nat,
{
    let ghost ss = models(s_children@);
    let ghost ps = models(p_children@);
    let ghost rest_s = ss.skip(si as int);
    let ghost rest_p = ps.skip(pi as int);
    if pi == p_children.len() {
        return if si == s_children.len() {
            Some(captures)
        } else {
            None
        };
    }
    let p_child = p_children[pi];
    proof {
        assert(ps[pi as int] == p_child@);
        assert(rest_p[0] == p_child@);
        lemma_size_drop_first(rest_p);
        assert(rest_p.drop_first() =~= ps.skip(pi + 1));
    }
    if let Some(sentinel) = span_sentinel(p_child, ctx) {
        let s_len: usize = s_children.len();
        let p_len: usize = p_children.len();
        let left: usize = s_len - si;
        let min: usize = if has_span_op(p_child, "+", ctx) { 1 } else { 0 };
        let max: usize = if left > 1 && has_span_op(p_child, "?", ctx) { 1 } else { left };
        let ghost whole = ctx@.children_match(rest_s, rest_p, captures@);
        let mut n: usize = min;
        assert(max as nat == ctx@.span_limit(rest_s, rest_p));
        while n <= max
            invariant
                n <= max + 1,
                max <= left,
                left == s_len - si,
                si <= s_len,
                pi < p_len,
                s_len == s_children@.len(),
                p_len == p_children@.len(),
                        ss == models(s_children@),
                ps == models(p_children@),
                rest_s == ss.skip(si as int),
                rest_p == ps.skip(pi as int),
                all_fit(ss, ctx.source_text@),
                all_fit(ps, ctx.pattern_text@),
                max as nat == ctx@.span_limit(rest_s, rest_p),
                ctx@.span_sentinel(rest_p[0]) == Some(sentinel@),
                rest_p.drop_first() == ps.skip(pi + 1),
                total_size(ps.skip(pi + 1)) < total_size(rest_p),
                whole == ctx@.children_match(rest_s, rest_p, captures@),
                whole == ctx@.span_matches(rest_s, rest_p, n as nat, captures@),
            decreases max + 1 - n,
        {
            let mut attempt = captures.clone();
            let end: usize = si + n;
            let text = span_text_in(ctx.source_text, s_children, si, end);
            proof {
                assert(ss.subrange(si as int, end as int) =~= rest_s.take(n as int));
                assert(rest_s.skip(n as int) =~= ss.skip(end as int));
            }
            record(&mut attempt, sentinel, text, ctx);
            if let Some(found) = match_children_suffix(
                s_children,
                p_children,
                end,
                pi + 1,
                attempt,
                ctx,
            ) {
                return Some(found);
            }
            if n == max {
                return None;
            }
            n = n + 1;
        }
        return None;
    }
    if si == s_children.len() {
        return None;
    }
    let s_child = s_children[si];
    proof {
        assert(ss[si as int] == s_child@);
        assert(rest_s[0] == s_child@);
        assert(rest_s.drop_first() =~= ss.skip(si + 1));
    }
    match structurally_matches(s_child, p_child, captures, ctx) {
        Some(found) => match_children_suffix(s_children, p_children, si + 1, pi + 1, found, ctx),
        None => None,
    }
}

} // verus!
