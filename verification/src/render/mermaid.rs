//! The Mermaid feature graph.

use vstd::prelude::*;

use crate::model::{
    contains_string, local_name, ref_text, ref_views, Feature, FeatureManifest, FeatureModel,
    ManifestModel, RefModel, WorkspaceManifest,
};
use crate::render::shared::{
    escape_mermaid, escape_mermaid_label, sanitize, sanitize_id, status_summary, status_text,
};
use crate::text::{concat2, concat3, join, join_strings, owned, views};

verus! {

/// A node identifier: the kind, the package prefix when there is one, and the
/// sanitized raw text.
pub open spec fn node_id(prefix: Option<Seq<char>>, kind: Seq<char>, raw: Seq<char>) -> Seq<char> {
    match prefix {
        Some(p) => kind + "_"@ + p + "_"@ + sanitize(raw),
        None => kind + "_"@ + sanitize(raw),
    }
}

/// The identifier of the `default` node.
pub open spec fn default_id(prefix: Option<Seq<char>>) -> Seq<char> {
    match prefix {
        Some(p) => "default_"@ + p,
        None => "default_"@,
    }
}

/// The identifier of a feature node.
pub open spec fn feature_id(prefix: Option<Seq<char>>, name: Seq<char>) -> Seq<char> {
    node_id(prefix, "feature"@, name)
}

/// A feature's label: its name and status, and `default` when default-enabled.
pub open spec fn feature_label_text(f: FeatureModel) -> Seq<char> {
    if f.default_enabled {
        f.name + "\\n"@ + status_text(f.metadata) + ", default"@
    } else {
        f.name + "\\n"@ + status_text(f.metadata)
    }
}

/// The features shown in the graph, in order.
pub open spec fn visible_features(fs: Seq<FeatureModel>, include_private: bool) -> Seq<FeatureModel>
    decreases fs.len(),
{
    if fs.len() == 0 {
        Seq::empty()
    } else {
        visible_features(fs.drop_last(), include_private) + if include_private
            || fs.last().metadata.public {
            seq![fs.last()]
        } else {
            Seq::empty()
        }
    }
}

/// A node declaration line.
pub open spec fn node_line(id: Seq<char>, label: Seq<char>) -> Seq<char> {
    "    "@ + id + "[\""@ + escape_mermaid(label) + "\"]"@
}

/// An edge line.
pub open spec fn edge_line(from: Seq<char>, to: Seq<char>) -> Seq<char> {
    "    "@ + from + " --> "@ + to
}

/// Lines written so far and external nodes already declared.
#[verifier::ext_equal]
pub struct EdgeState {
    pub lines: Seq<Seq<char>>,
    pub externals: Seq<Seq<char>>,
}

/// The lines for one reference of the feature whose node is `from`: an edge to
/// a shown local feature, or an edge to an external node declared on first use.
pub open spec fn ref_step(
    st: EdgeState,
    prefix: Option<Seq<char>>,
    names: Seq<Seq<char>>,
    from: Seq<char>,
    r: RefModel,
) -> EdgeState {
    match local_name(r) {
        Some(n) if names.contains(n) => EdgeState {
            lines: st.lines.push(edge_line(from, feature_id(prefix, n))),
            ..st
        },
        _ => {
            let ext = node_id(prefix, "ref"@, ref_text(r));
            if st.externals.contains(ext) {
                EdgeState { lines: st.lines.push(edge_line(from, ext)), ..st }
            } else {
                EdgeState {
                    lines: st.lines.push(node_line(ext, ref_text(r))).push(edge_line(from, ext)),
                    externals: st.externals.push(ext),
                }
            }
        },
    }
}

/// The lines for references `rs`, in order.
pub open spec fn refs_step(
    st: EdgeState,
    prefix: Option<Seq<char>>,
    names: Seq<Seq<char>>,
    from: Seq<char>,
    rs: Seq<RefModel>,
) -> EdgeState
    decreases rs.len(),
{
    if rs.len() == 0 {
        st
    } else {
        ref_step(refs_step(st, prefix, names, from, rs.drop_last()), prefix, names, from, rs.last())
    }
}

/// The lines for one shown feature: its default edge, then its references.
pub open spec fn feature_step(
    st: EdgeState,
    prefix: Option<Seq<char>>,
    names: Seq<Seq<char>>,
    f: FeatureModel,
) -> EdgeState {
    let with_default = if f.default_enabled {
        EdgeState {
            lines: st.lines.push(edge_line(default_id(prefix), feature_id(prefix, f.name))),
            ..st
        }
    } else {
        st
    };
    refs_step(with_default, prefix, names, feature_id(prefix, f.name), f.enables)
}

/// The edge lines for the shown features, in order.
pub open spec fn features_step(
    st: EdgeState,
    prefix: Option<Seq<char>>,
    names: Seq<Seq<char>>,
    fs: Seq<FeatureModel>,
) -> EdgeState
    decreases fs.len(),
{
    if fs.len() == 0 {
        st
    } else {
        feature_step(features_step(st, prefix, names, fs.drop_last()), prefix, names, fs.last())
    }
}

/// The lines of a package graph.
pub open spec fn mermaid_lines(m: ManifestModel, include_private: bool, prefix: Option<Seq<char>>) -> Seq<Seq<char>> {
    let vis = visible_features(m.features, include_private);
    if vis.len() == 0 {
        seq!["graph TD"@, "    empty[\"No public features declared\"]"@]
    } else {
        let names = vis.map_values(|f: FeatureModel| f.name);
        let head = seq!["graph TD"@] + (if exists|i: int|
            0 <= i < vis.len() && #[trigger] vis[i].default_enabled {
            seq!["    "@ + default_id(prefix) + "[\"default\"]"@]
        } else {
            Seq::empty()
        }) + vis.map_values(
            |f: FeatureModel| node_line(feature_id(prefix, f.name), feature_label_text(f)),
        );
        features_step(EdgeState { lines: head, externals: Seq::empty() }, prefix, names, vis).lines
    }
}

/// The name shown for a package.
pub open spec fn package_label(m: ManifestModel) -> Seq<char> {
    match m.package_name {
        Some(n) => n,
        None => "unknown-package"@,
    }
}

/// One package as a subgraph: its graph lines after the first, indented.
pub open spec fn subgraph_lines(m: ManifestModel, include_private: bool) -> Seq<Seq<char>> {
    let p = sanitize(package_label(m));
    seq!["    subgraph package_"@ + p + "[\""@ + escape_mermaid(package_label(m)) + "\"]"@]
        + mermaid_lines(m, include_private, Some(p)).skip(1).map_values(
        |l: Seq<char>| "    "@ + l,
    ) + seq!["    end"@]
}

/// The subgraphs of packages, in order.
pub open spec fn subgraphs(ps: Seq<ManifestModel>, include_private: bool) -> Seq<Seq<char>>
    decreases ps.len(),
{
    if ps.len() == 0 {
        Seq::empty()
    } else {
        subgraphs(ps.drop_last(), include_private) + subgraph_lines(ps.last(), include_private)
    }
}

/// The Mermaid graph for a selection of packages: one package graph alone, or
/// a subgraph per package. A package's lines never hold a line break, so its
/// lines are those of its rendered text.
pub open spec fn mermaid_text(ps: Seq<ManifestModel>, include_private: bool) -> Seq<char> {
    if ps.len() == 1 {
        join(mermaid_lines(ps[0], include_private, None), "\n"@)
    } else {
        join(seq!["graph TD"@] + subgraphs(ps, include_private), "\n"@)
    }
}

/// Executable form of [`node_id`].
fn prefixed_node_id(prefix: Option<&str>, kind: &str, raw: &str) -> (r: String)
    ensures
        r@ == node_id(
            match prefix {
                Some(p) => Some(p@),
                None => None,
            },
            kind@,
            raw@,
        ),
{
    let mut r = owned(kind);
    r.append("_");
    match prefix {
        Some(p) => {
            r.append(p);
            r.append("_");
        },
        None => {},
    }
    r.append(sanitize_id(raw).as_str());
    r
}

/// Executable form of [`default_id`].
fn default_node_id(prefix: Option<&str>) -> (r: String)
    ensures
        r@ == default_id(
            match prefix {
                Some(p) => Some(p@),
                None => None,
            },
        ),
{
    match prefix {
        Some(p) => concat2("default_", p),
        None => owned("default_"),
    }
}

/// Executable form of [`feature_label_text`].
fn feature_label(f: &Feature) -> (r: String)
    ensures
        r@ == feature_label_text(f@),
{
    let mut r = f.name.clone();
    r.append("\\n");
    r.append(status_summary(&f.metadata).as_str());
    if f.default_enabled {
        r.append(", default");
    }
    r
}

/// Executable form of [`node_line`].
fn node_line_text(id: &str, label: &str) -> (r: String)
    ensures
        r@ == node_line(id@, label@),
{
    let mut r = owned("    ");
    r.append(id);
    r.append("[\"");
    r.append(escape_mermaid_label(label).as_str());
    r.append("\"]");
    r
}

/// Executable form of [`edge_line`].
fn edge_line_text(from: &str, to: &str) -> (r: String)
    ensures
        r@ == edge_line(from@, to@),
{
    concat3("    ", from, " --> ").concat(to)
}

/// The edge state held by the two vectors.
pub open spec fn edge_state(lines: Seq<String>, externals: Seq<String>) -> EdgeState {
    EdgeState { lines: views(lines), externals: views(externals) }
}

/// The optional prefix as characters.
pub open spec fn prefix_view(prefix: Option<&str>) -> Option<Seq<char>> {
    match prefix {
        Some(p) => Some(p@),
        None => None,
    }
}

/// The lines of a package graph.
fn mermaid_package_lines(m: &FeatureManifest, include_private: bool, prefix: Option<&str>) -> (r: Vec<String>)
    ensures
        views(r@) == mermaid_lines(m@, include_private, prefix_view(prefix)),
        r@.len() >= 1,
{
    let ghost pv = prefix_view(prefix);
    let ghost fs = m@.features;
    let mut visible: Vec<&Feature> = Vec::new();
    let mut names: Vec<String> = Vec::new();
    let mut any_default = false;
    let mut i: usize = 0;
    while i < m.features.len()
        invariant
            i <= m.features@.len(),
            fs == m@.features,
            visible@.map_values(|f: &Feature| f@) == visible_features(fs.take(i as int), include_private),
            views(names@) == visible_features(fs.take(i as int), include_private).map_values(|f: FeatureModel| f.name),
            any_default == exists|j: int|
                0 <= j < visible_features(fs.take(i as int), include_private).len()
                    && #[trigger] visible_features(fs.take(i as int), include_private)[j].default_enabled,
        decreases m.features@.len() - i,
    {
        let ghost prev = visible_features(fs.take(i as int), include_private);
        assert(fs.take(i as int + 1).drop_last() == fs.take(i as int));
        assert(fs.take(i as int + 1).last() == m.features@[i as int]@);
        let f = &m.features[i];
        let ghost names_before = views(names@);
        if include_private || f.metadata.public {
            visible.push(f);
            let nm = f.name.clone();
            names.push(nm);
            assert(views(names@) =~= names_before.push(f@.name));
            if f.default_enabled {
                any_default = true;
            }
            let ghost next = prev.push(f@);
            assert(visible_features(fs.take(i as int + 1), include_private) =~= next);
            assert(next[prev.len() as int] == f@);
            assert forall|j: int| 0 <= j < prev.len() implies next[j] == prev[j] by {}
            proof {
                if f@.default_enabled {
                    assert(next[prev.len() as int].default_enabled);
                } else if any_default {
                    let w = choose|j: int| 0 <= j < prev.len() && #[trigger] prev[j].default_enabled;
                    assert(next[w].default_enabled);
                } else {
                    assert forall|j: int| 0 <= j < next.len() implies !(#[trigger] next[j].default_enabled) by {
                        if j < prev.len() {
                            assert(next[j] == prev[j]);
                        }
                    }
                }
            }
        } else {
            assert(visible_features(fs.take(i as int + 1), include_private) == prev);
        }
        assert(visible@.map_values(|f: &Feature| f@) =~= visible_features(fs.take(i as int + 1), include_private));
        assert(views(names@) =~= visible_features(fs.take(i as int + 1), include_private).map_values(
            |f: FeatureModel| f.name,
        ));
        i = i + 1;
    }
    assert(fs.take(m.features@.len() as int) == fs);
    let ghost vis = visible_features(fs, include_private);
    let mut lines: Vec<String> = Vec::new();
    if visible.len() == 0 {
        lines.push(owned("graph TD"));
        lines.push(owned("    empty[\"No public features declared\"]"));
        assert(vis.len() == 0);
        assert(views(lines@) =~= seq!["graph TD"@, "    empty[\"No public features declared\"]"@]);
        return lines;
    }
    lines.push(owned("graph TD"));
    if any_default {
        let mut line = owned("    ");
        line.append(default_node_id(prefix).as_str());
        line.append("[\"default\"]");
        lines.push(line);
    }
    let ghost node_lines = vis.map_values(
        |f: FeatureModel| node_line(feature_id(pv, f.name), feature_label_text(f)),
    );
    let ghost head0 = views(lines@);
    let mut k: usize = 0;
    while k < visible.len()
        invariant
            k <= visible@.len(),
            visible@.map_values(|f: &Feature| f@) == vis,
            node_lines == vis.map_values(
                |f: FeatureModel| node_line(feature_id(pv, f.name), feature_label_text(f)),
            ),
            pv == prefix_view(prefix),
            views(lines@) == head0 + node_lines.take(k as int),
            lines@.len() >= 1,
        decreases visible@.len() - k,
    {
        let f = visible[k];
        assert(vis[k as int] == f@);
        let id = prefixed_node_id(prefix, "feature", f.name.as_str());
        let line = node_line_text(id.as_str(), feature_label(f).as_str());
        let ghost before = views(lines@);
        lines.push(line);
        assert(views(lines@) =~= before.push(node_lines[k as int]));
        assert(views(lines@) =~= head0 + node_lines.take(k as int + 1));
        k = k + 1;
    }
    assert(node_lines.take(visible@.len() as int) == node_lines);
    let ghost vnames = vis.map_values(|f: FeatureModel| f.name);
    let ghost head = views(lines@);
    let mut externals: Vec<String> = Vec::new();
    let ghost init = EdgeState { lines: head, externals: Seq::empty() };
    assert(views(externals@) =~= Seq::<Seq<char>>::empty());
    let mut k: usize = 0;
    while k < visible.len()
        invariant
            k <= visible@.len(),
            visible@.map_values(|f: &Feature| f@) == vis,
            views(names@) == vnames,
            pv == prefix_view(prefix),
            lines@.len() >= 1,
            edge_state(lines@, externals@) == features_step(
                init,
                pv,
                vnames,
                vis.take(k as int),
            ),
        decreases visible@.len() - k,
    {
        let f = visible[k];
        assert(vis[k as int] == f@);
        assert(vis.take(k as int + 1).drop_last() == vis.take(k as int));
        let from = prefixed_node_id(prefix, "feature", f.name.as_str());
        let ghost st0 = edge_state(lines@, externals@);
        if f.default_enabled {
            lines.push(edge_line_text(default_node_id(prefix).as_str(), from.as_str()));
        }
        let ghost st1 = edge_state(lines@, externals@);
        assert(st1 =~= (if f@.default_enabled {
            EdgeState {
                lines: st0.lines.push(edge_line(default_id(pv), feature_id(pv, f@.name))),
                ..st0
            }
        } else {
            st0
        }));
        let mut j: usize = 0;
        while j < f.enables.len()
            invariant
                j <= f.enables@.len(),
                views(names@) == vnames,
                pv == prefix_view(prefix),
                lines@.len() >= 1,
                from@ == feature_id(pv, f@.name),
                edge_state(lines@, externals@) == refs_step(
                    st1,
                    pv,
                    vnames,
                    from@,
                    f@.enables.take(j as int),
                ),
            decreases f.enables@.len() - j,
        {
            assert(f@.enables.take(j as int + 1).drop_last() == f@.enables.take(j as int));
            assert(f@.enables.take(j as int + 1).last() == f.enables@[j as int]@);
            let r = &f.enables[j];
            let ghost stj = edge_state(lines@, externals@);
            let local = match r.local_feature_name() {
                Some(n) => if contains_string(&names, n) {
                    Some(n)
                } else {
                    None
                },
                None => None,
            };
            match local {
                Some(n) => {
                    let to = prefixed_node_id(prefix, "feature", n);
                    lines.push(edge_line_text(from.as_str(), to.as_str()));
                    assert(edge_state(lines@, externals@) =~= ref_step(
                        stj,
                        pv,
                        vnames,
                        from@,
                        r@,
                    ));
                },
                None => {
                    let raw = r.raw();
                    let ext = prefixed_node_id(prefix, "ref", raw.as_str());
                    if !contains_string(&externals, ext.as_str()) {
                        lines.push(node_line_text(ext.as_str(), raw.as_str()));
                        externals.push(ext.clone());
                    }
                    lines.push(edge_line_text(from.as_str(), ext.as_str()));
                    assert(edge_state(lines@, externals@) =~= ref_step(
                        stj,
                        pv,
                        vnames,
                        from@,
                        r@,
                    ));
                },
            }
            j = j + 1;
        }
        assert(f@.enables.take(f.enables@.len() as int) == f@.enables);
        k = k + 1;
    }
    assert(vis.take(visible@.len() as int) == vis);
    proof {
        if exists|j: int| 0 <= j < vis.len() && #[trigger] vis[j].default_enabled {
            assert(any_default);
        }
        assert(head =~= seq!["graph TD"@] + (if exists|j: int|
            0 <= j < vis.len() && #[trigger] vis[j].default_enabled {
            seq!["    "@ + default_id(pv) + "[\"default\"]"@]
        } else {
            Seq::empty()
        }) + node_lines);
    }
    lines
}

/// Renders one package graph.
fn render_mermaid_package(m: &FeatureManifest, include_private: bool, prefix: Option<&str>) -> (r: String)
    ensures
        r@ == join(mermaid_lines(m@, include_private, prefix_view(prefix)), "\n"@),
{
    join_strings(&mermaid_package_lines(m, include_private, prefix), "\n")
}

/// Renders selected packages as a Mermaid graph.
pub fn render_mermaid(workspace: &WorkspaceManifest, include_private: bool) -> (r: String)
    ensures
        r@ == mermaid_text(workspace@.packages, include_private),
{
    if workspace.is_single_package() {
        assert(workspace@.packages[0] == workspace.packages@[0]@);
        return render_mermaid_package(&workspace.packages[0], include_private, None);
    }
    let mut lines: Vec<String> = Vec::new();
    lines.push(owned("graph TD"));
    let ghost ps = workspace@.packages;
    let mut k: usize = 0;
    while k < workspace.packages.len()
        invariant
            k <= workspace.packages@.len(),
            ps == workspace@.packages,
            views(lines@) == seq!["graph TD"@] + subgraphs(ps.take(k as int), include_private),
        decreases workspace.packages@.len() - k,
    {
        assert(ps.take(k as int + 1).drop_last() == ps.take(k as int));
        assert(ps.take(k as int + 1).last() == workspace.packages@[k as int]@);
        let package = &workspace.packages[k];
        let name: &str = match &package.package_name {
            Some(n) => n.as_str(),
            None => "unknown-package",
        };
        assert(name@ == package_label(package@));
        let pfx = sanitize_id(name);
        let ghost before = views(lines@);
        let mut head = owned("    subgraph package_");
        head.append(pfx.as_str());
        head.append("[\"");
        head.append(escape_mermaid_label(name).as_str());
        head.append("\"]");
        let ghost head_line = head@;
        lines.push(head);
        let inner = mermaid_package_lines(package, include_private, Some(pfx.as_str()));
        let ghost body = views(inner@).skip(1).map_values(|l: Seq<char>| "    "@ + l);
        let ghost mid = views(lines@);
        let mut j: usize = 1;
        while j < inner.len()
            invariant
                1 <= j <= inner@.len(),
                body == views(inner@).skip(1).map_values(|l: Seq<char>| "    "@ + l),
                views(lines@) == mid + body.take(j as int - 1),
            decreases inner@.len() - j,
        {
            let ghost prev = views(lines@);
            lines.push(concat2("    ", inner[j].as_str()));
            assert(body[j as int - 1] == "    "@ + inner@[j as int]@);
            assert(views(lines@) =~= prev.push(body[j as int - 1]));
            assert(views(lines@) =~= mid + body.take(j as int));
            j = j + 1;
        }
        assert(body.take(inner@.len() as int - 1) =~= body);
        assert(mid =~= before.push(head_line));
        let ghost almost = views(lines@);
        lines.push(owned("    end"));
        assert(views(lines@) =~= almost.push("    end"@));
        assert(views(lines@) =~= before + subgraph_lines(package@, include_private));
        assert(views(lines@) =~= seq!["graph TD"@] + subgraphs(ps.take(k as int + 1), include_private));
        k = k + 1;
    }
    assert(ps.take(workspace.packages@.len() as int) == ps);
    join_strings(&lines, "\n")
}


/// Whether the lines of `a` open the lines of `b`.
pub open spec fn lines_grow(a: Seq<Seq<char>>, b: Seq<Seq<char>>) -> bool {
    a.len() <= b.len() && forall|i: int| 0 <= i < a.len() ==> #[trigger] b[i] == a[i]
}

/// One reference adds lines after those written.
pub proof fn lemma_ref_step_grows(st: EdgeState, prefix: Option<Seq<char>>, names: Seq<Seq<char>>, from: Seq<char>, r: RefModel)
    ensures
        lines_grow(st.lines, ref_step(st, prefix, names, from, r).lines),
{
}

/// References add lines after those written, and an edge from `from` to each
/// shown local feature they name.
pub proof fn lemma_refs_step(
    st: EdgeState,
    prefix: Option<Seq<char>>,
    names: Seq<Seq<char>>,
    from: Seq<char>,
    rs: Seq<RefModel>,
)
    ensures
        lines_grow(st.lines, refs_step(st, prefix, names, from, rs).lines),
        forall|j: int|
            0 <= j < rs.len() && (#[trigger] rs[j]) is Feature && names.contains(rs[j]->Feature_0) ==> refs_step(
                st,
                prefix,
                names,
                from,
                rs,
            ).lines.contains("    "@ + from + " --> "@ + feature_id(prefix, rs[j]->Feature_0)),
    decreases rs.len(),
{
    if rs.len() > 0 {
        let init = rs.drop_last();
        let mid = refs_step(st, prefix, names, from, init);
        let fin = refs_step(st, prefix, names, from, rs);
        lemma_refs_step(st, prefix, names, from, init);
        lemma_ref_step_grows(mid, prefix, names, from, rs.last());
        assert forall|j: int|
            0 <= j < rs.len() && (#[trigger] rs[j]) is Feature && names.contains(rs[j]->Feature_0) implies fin.lines.contains(
            "    "@ + from + " --> "@ + feature_id(prefix, rs[j]->Feature_0)) by {
            let e = "    "@ + from + " --> "@ + feature_id(prefix, rs[j]->Feature_0);
            if j < init.len() {
                assert(init[j] == rs[j]);
                let i = choose|i: int| 0 <= i < mid.lines.len() && mid.lines[i] == e;
                assert(fin.lines[i] == mid.lines[i]);
            } else {
                assert(rs[j] == rs.last());
                assert(fin.lines[fin.lines.len() - 1] == e);
            }
        }
    }
}

/// A shown feature adds lines after those written: the edge from `default`
/// when it is default-enabled, and an edge to each shown local feature it
/// enables.
pub proof fn lemma_feature_step(st: EdgeState, prefix: Option<Seq<char>>, names: Seq<Seq<char>>, f: FeatureModel)
    ensures
        lines_grow(st.lines, feature_step(st, prefix, names, f).lines),
        f.default_enabled ==> feature_step(st, prefix, names, f).lines.contains(
            "    "@ + default_id(prefix) + " --> "@ + feature_id(prefix, f.name),
        ),
        forall|j: int|
            0 <= j < f.enables.len() && (#[trigger] f.enables[j]) is Feature && names.contains(
                f.enables[j]->Feature_0,
            ) ==> feature_step(st, prefix, names, f).lines.contains(
                "    "@ + feature_id(prefix, f.name) + " --> "@ + feature_id(prefix, f.enables[j]->Feature_0),
            ),
{
    let with_default = if f.default_enabled {
        EdgeState { lines: st.lines.push(edge_line(default_id(prefix), feature_id(prefix, f.name))), ..st }
    } else {
        st
    };
    let from = feature_id(prefix, f.name);
    lemma_refs_step(with_default, prefix, names, from, f.enables);
    let fin = feature_step(st, prefix, names, f);
    if f.default_enabled {
        let e = "    "@ + default_id(prefix) + " --> "@ + feature_id(prefix, f.name);
        assert(with_default.lines[st.lines.len() as int] == e);
        assert(fin.lines[st.lines.len() as int] == e);
    }
}

/// Features add lines after those written, and each shown feature's edges.
pub proof fn lemma_features_step(st: EdgeState, prefix: Option<Seq<char>>, names: Seq<Seq<char>>, fs: Seq<FeatureModel>, k: int)
    requires
        0 <= k < fs.len(),
    ensures
        lines_grow(st.lines, features_step(st, prefix, names, fs).lines),
        fs[k].default_enabled ==> features_step(st, prefix, names, fs).lines.contains(
            "    "@ + default_id(prefix) + " --> "@ + feature_id(prefix, fs[k].name),
        ),
        forall|j: int|
            0 <= j < fs[k].enables.len() && (#[trigger] fs[k].enables[j]) is Feature && names.contains(
                fs[k].enables[j]->Feature_0,
            ) ==> features_step(st, prefix, names, fs).lines.contains(
                "    "@ + feature_id(prefix, fs[k].name) + " --> "@ + feature_id(prefix, fs[k].enables[j]->Feature_0),
            ),
    decreases fs.len(),
{
    let init = fs.drop_last();
    let mid = features_step(st, prefix, names, init);
    let fin = features_step(st, prefix, names, fs);
    lemma_feature_step(mid, prefix, names, fs.last());
    if k < fs.len() - 1 {
        assert(init[k] == fs[k]);
        lemma_features_step(st, prefix, names, init, k);
        assert forall|e: Seq<char>| mid.lines.contains(e) implies fin.lines.contains(e) by {
            let i = choose|i: int| 0 <= i < mid.lines.len() && mid.lines[i] == e;
            assert(fin.lines[i] == mid.lines[i]);
        }
    } else {
        if init.len() > 0 {
            lemma_features_step(st, prefix, names, init, 0);
        } else {
            assert(mid == st);
        }
        assert(fs[k] == fs.last());
    }
}

/// A shown feature is among the visible features.
pub proof fn lemma_visible(fs: Seq<FeatureModel>, include_private: bool, k: int)
    requires
        0 <= k < fs.len(),
        include_private || fs[k].metadata.public,
    ensures
        visible_features(fs, include_private).contains(fs[k]),
    decreases fs.len(),
{
    let init = fs.drop_last();
    let vis = visible_features(fs, include_private);
    let prev = visible_features(init, include_private);
    if k < fs.len() - 1 {
        assert(init[k] == fs[k]);
        lemma_visible(init, include_private, k);
        let i = choose|i: int| 0 <= i < prev.len() && prev[i] == fs[k];
        assert(vis[i] == prev[i]);
    } else {
        assert(vis[prev.len() as int] == fs.last());
    }
}

/// In the graph of a package, every shown feature has an edge from it to each
/// shown feature it enables, the enabling feature on the left of the arrow,
/// and an edge from `default` when it is default-enabled.
pub proof fn law_edges_point_from_enabler(m: ManifestModel, include_private: bool, prefix: Option<Seq<char>>, k: int, j: int, g: int)
    requires
        0 <= k < m.features.len(),
        include_private || m.features[k].metadata.public,
        0 <= j < m.features[k].enables.len(),
        0 <= g < m.features.len(),
        include_private || m.features[g].metadata.public,
        m.features[k].enables[j] == RefModel::Feature(m.features[g].name),
    ensures
        mermaid_lines(m, include_private, prefix).contains(
            "    "@ + feature_id(prefix, m.features[k].name) + " --> "@ + feature_id(prefix, m.features[g].name),
        ),
        m.features[k].default_enabled ==> mermaid_lines(m, include_private, prefix).contains(
            "    "@ + default_id(prefix) + " --> "@ + feature_id(prefix, m.features[k].name),
        ),
{
    let vis = visible_features(m.features, include_private);
    lemma_visible(m.features, include_private, k);
    lemma_visible(m.features, include_private, g);
    let a = choose|a: int| 0 <= a < vis.len() && vis[a] == m.features[k];
    let b = choose|b: int| 0 <= b < vis.len() && vis[b] == m.features[g];
    let names = vis.map_values(|f: FeatureModel| f.name);
    assert(names[b] == m.features[g].name);
    assert(names.contains(m.features[g].name));
    let head = seq!["graph TD"@] + (if exists|i: int| 0 <= i < vis.len() && #[trigger] vis[i].default_enabled {
        seq!["    "@ + default_id(prefix) + "[\"default\"]"@]
    } else {
        Seq::empty()
    }) + vis.map_values(|f: FeatureModel| node_line(feature_id(prefix, f.name), feature_label_text(f)));
    lemma_features_step(EdgeState { lines: head, externals: Seq::empty() }, prefix, names, vis, a);
    assert(vis[a].enables[j] == RefModel::Feature(m.features[g].name));
}

} // verus!
