//! Planning a template scan of one target and taking in its findings.
use vstd::prelude::*;
use vstd::hash_map::StringHashMap;
use crate::result::{TemplateResult, WhatWebResult};
use crate::text::{
    chars_of, dedup, dedup_strings, join_seq, join_strings, split_chars, split_seq,
    split_terminator, split_terminator_seq, string_of, utf8_text, views, decimal, decimal_string,
};

verus! {

broadcast use vstd::string::group_string_axioms;

/// The condition that a template's tags hold `tag`.
pub open spec fn contains_clause(tag: Seq<char>) -> Seq<char> {
    "contains(tags,'"@ + tag + "')"@
}

/// The condition for one group of tags: a single tag alone, several tags all
/// together, in parentheses.
pub open spec fn group_clause(tags: Seq<Seq<char>>) -> Seq<char> {
    if tags.len() == 1 {
        contains_clause(tags[0])
    } else {
        "("@ + join_seq(tags.map_values(|t: Seq<char>| contains_clause(t)), "&&"@) + ")"@
    }
}

/// The template condition for a list of tag groups: any one group.
pub open spec fn tags_condition(groups: Seq<Seq<Seq<char>>>) -> Seq<char> {
    join_seq(groups.map_values(|g: Seq<Seq<char>>| group_clause(g)), "||"@)
}

/// The views of a list of tag groups.
pub open spec fn groups_view(v: Seq<Vec<String>>) -> Seq<Seq<Seq<char>>> {
    v.map_values(|g: Vec<String>| views(g@))
}

/// Builds the condition `contains(tags,'t')` for one tag.
fn contains_clause_string(tag: &String) -> (res: String)
    ensures
        res@ == contains_clause(tag@),
{
    let mut cs = chars_of("contains(tags,'");
    cs.extend_from_slice(chars_of(tag.as_str()).as_slice());
    cs.extend_from_slice(chars_of("')").as_slice());
    string_of(cs.as_slice())
}

/// Builds the template condition that selects templates by the tag groups of
/// a recognised technology: the groups are alternatives (`||`); a group of
/// one tag is a single `contains` test, a larger group is the conjunction
/// (`&&`) of its tests, in parentheses.
pub fn gen_nuclei_tags(tags_list: &Vec<Vec<String>>) -> (res: String)
    ensures
        res@ == tags_condition(groups_view(tags_list@)),
{
    let mut or_condition: Vec<String> = Vec::new();
    let mut i: usize = 0;
    while i < tags_list.len()
        invariant
            i <= tags_list.len(),
            views(or_condition@) == groups_view(tags_list@).take(i as int).map_values(
                |g: Seq<Seq<char>>| group_clause(g),
            ),
        decreases tags_list.len() - i,
    {
        let tags = &tags_list[i];
        let clause = if tags.len() == 1 {
            contains_clause_string(&tags[0])
        } else {
            let mut and_condition: Vec<String> = Vec::new();
            let mut j: usize = 0;
            while j < tags.len()
                invariant
                    j <= tags.len(),
                    views(and_condition@) == views(tags@).take(j as int).map_values(
                        |t: Seq<char>| contains_clause(t),
                    ),
                decreases tags.len() - j,
            {
                let c = contains_clause_string(&tags[j]);
                let ghost before = and_condition@;
                and_condition.push(c);
                assert(views(and_condition@) == views(before).push(c@));
                assert(views(tags@).take(j + 1).map_values(|t: Seq<char>| contains_clause(t))
                    == views(tags@).take(j as int).map_values(|t: Seq<char>| contains_clause(t)).push(
                    contains_clause(tags@[j as int]@),
                ));
                j = j + 1;
            }
            assert(views(tags@).take(tags.len() as int) == views(tags@));
            let inner = join_strings(&and_condition, "&&");
            let mut cs = chars_of("(");
            cs.extend_from_slice(chars_of(inner.as_str()).as_slice());
            cs.extend_from_slice(chars_of(")").as_slice());
            string_of(cs.as_slice())
        };
        assert(clause@ == group_clause(groups_view(tags_list@)[i as int]));
        let ghost before = or_condition@;
        or_condition.push(clause);
        assert(views(or_condition@) == views(before).push(clause@));
        assert(groups_view(tags_list@).take(i + 1).map_values(|g: Seq<Seq<char>>| group_clause(g))
            == groups_view(tags_list@).take(i as int).map_values(
            |g: Seq<Seq<char>>| group_clause(g),
        ).push(group_clause(groups_view(tags_list@)[i as int])));
        i = i + 1;
    }
    assert(groups_view(tags_list@).take(tags_list.len() as int) == groups_view(tags_list@));
    join_strings(&or_condition, "||")
}


/// The tag groups of each technology, by name.
pub struct TagTable {
    map: StringHashMap<Vec<Vec<String>>>,
}

impl View for TagTable {
    type V = Map<Seq<char>, Vec<Vec<String>>>;

    closed spec fn view(&self) -> Map<Seq<char>, Vec<Vec<String>>> {
        self.map@
    }
}

impl TagTable {
    /// An empty table.
    pub fn new() -> (res: Self)
        ensures
            res@ == Map::<Seq<char>, Vec<Vec<String>>>::empty(),
    {
        TagTable { map: StringHashMap::new() }
    }

    /// Sets the tag groups of `name`.
    pub fn insert(&mut self, name: String, groups: Vec<Vec<String>>)
        ensures
            final(self)@ == old(self)@.insert(name@, groups),
    {
        self.map.insert(name, groups);
    }

    /// The tag groups of `name`, if any.
    pub fn get(&self, name: &str) -> (res: Option<&Vec<Vec<String>>>)
        ensures
            match res {
                Some(g) => self@.contains_key(name@) && *g == self@[name@],
                None => !self@.contains_key(name@),
            },
    {
        self.map.get(name)
    }
}

/// The conditions of the recognised names that have tag groups, in the order
/// of `names`.
pub open spec fn tag_conditions(
    names: Seq<Seq<char>>,
    tags: Map<Seq<char>, Vec<Vec<String>>>,
) -> Seq<Seq<char>>
    decreases names.len(),
{
    if names.len() == 0 {
        Seq::empty()
    } else {
        let r = tag_conditions(names.drop_last(), tags);
        if tags.contains_key(names.last()) {
            r.push(tags_condition(groups_view(tags[names.last()]@)))
        } else {
            r
        }
    }
}

/// What a template scan of one target runs: the template locations, and the
/// condition that selects templates by their tags.
#[derive(Debug, Clone, PartialEq, Eq)]
pub struct NucleiPlan {
    /// The template files and directories to load.
    pub templates: Vec<String>,
    /// The template condition.
    pub condition: String,
}

/// The template locations of a scan: the plugin templates found for the
/// recognised names, then the configured template path.
pub open spec fn plan_templates(found: Seq<Seq<char>>, template_path: Option<Seq<char>>) -> Seq<
    Seq<char>,
> {
    match template_path {
        Some(t) => found.push(t),
        None => found,
    }
}

/// The tag conditions of a scan; tags are used only with a template path.
pub open spec fn plan_conditions(
    names: Seq<Seq<char>>,
    template_path: Option<Seq<char>>,
    tags: Map<Seq<char>, Vec<Vec<String>>>,
) -> Seq<Seq<char>> {
    if template_path is Some {
        tag_conditions(names, tags)
    } else {
        Seq::empty()
    }
}

/// Whether a template scan runs: it needs both a template location and a
/// tag condition.
pub open spec fn plan_runs(
    names: Seq<Seq<char>>,
    found: Seq<Seq<char>>,
    template_path: Option<Seq<char>>,
    tags: Map<Seq<char>, Vec<Vec<String>>>,
) -> bool {
    plan_templates(found, template_path).len() > 0 && plan_conditions(
        names,
        template_path,
        tags,
    ).len() > 0
}

/// The view of an optional string.
pub open spec fn opt_view(o: Option<String>) -> Option<Seq<char>> {
    match o {
        Some(s) => Some(s@),
        None => None,
    }
}

/// Decides whether a target gets a template scan, and with what.
///
/// `names` are the technologies recognised on the target, `found_plugins` the
/// plugin templates that exist for them, `template_path` the configured
/// template location, and `tags` the tag groups of each technology. The
/// result is `None` where no scan is to run.
pub fn nuclei_plan(
    names: &Vec<String>,
    found_plugins: Vec<String>,
    template_path: &Option<String>,
    tags: &TagTable,
) -> (res: Option<NucleiPlan>)
    ensures
        res is Some <==> plan_runs(views(names@), views(found_plugins@), opt_view(*template_path), tags@),
        res matches Some(plan) ==> {
            &&& views(plan.templates@) == plan_templates(
                views(found_plugins@),
                opt_view(*template_path),
            )
            &&& plan.condition@ == join_seq(
                plan_conditions(views(names@), opt_view(*template_path), tags@),
                "||"@,
            )
        },
{
    let mut templates = found_plugins;
    let mut conditions: Vec<String> = Vec::new();
    let use_tags = template_path.is_some();
    if use_tags {
        let mut i: usize = 0;
        while i < names.len()
            invariant
                i <= names.len(),
                views(conditions@) == tag_conditions(views(names@).take(i as int), tags@),
            decreases names.len() - i,
        {
            assert(views(names@).take(i + 1).drop_last() == views(names@).take(i as int));
            match tags.get(names[i].as_str()) {
                Some(groups) => {
                    let c = gen_nuclei_tags(groups);
                    let ghost before = conditions@;
                    conditions.push(c);
                    assert(views(conditions@) == views(before).push(c@));
                },
                None => {},
            }
            i = i + 1;
        }
        assert(views(names@).take(names.len() as int) == views(names@));
    }
    match template_path {
        Some(t) => {
            let ghost before = templates@;
            templates.push(t.clone());
            assert(views(templates@) == views(before).push(t@));
        },
        None => {},
    }
    if templates.len() == 0 || conditions.len() == 0 {
        None
    } else {
        let condition = join_strings(&conditions, "||");
        Some(NucleiPlan { templates, condition })
    }
}

/// The template flags of a scan: `-t` before each location.
pub open spec fn template_flags(templates: Seq<Seq<char>>) -> Seq<Seq<char>>
    decreases templates.len(),
{
    if templates.len() == 0 {
        Seq::empty()
    } else {
        template_flags(templates.drop_last()) + seq!["-t"@, templates.last()]
    }
}

/// The extra arguments of a scan: the configured string cut at each space.
pub open spec fn extra_args(nargs: Option<Seq<char>>) -> Seq<Seq<char>> {
    match nargs {
        Some(a) => split_seq(a, ' '),
        None => Seq::empty(),
    }
}

/// The command-line arguments of a template scan of `url`.
pub open spec fn nuclei_args_spec(
    url: Seq<char>,
    timeout: nat,
    nargs: Option<Seq<char>>,
    templates: Seq<Seq<char>>,
    condition: Seq<char>,
    irr: bool,
) -> Seq<Seq<char>> {
    seq!["-u"@, url, "-no-color"@, "-timeout"@, decimal(timeout + 5), "-es"@, "info"@]
        + extra_args(nargs) + template_flags(templates) + seq!["-tc"@, condition] + seq![
        "-silent"@,
        "-jsonl"@,
        "-duc"@,
    ] + if irr {
        seq!["-irr"@]
    } else {
        Seq::empty()
    }
}

/// A string with the characters of `s`.
fn owned(s: &str) -> (res: String)
    ensures
        res@ == s@,
{
    s.to_string()
}

/// Appends one argument.
fn push_arg(args: &mut Vec<String>, a: String)
    ensures
        views(final(args)@) == views(old(args)@).push(a@),
{
    args.push(a);
    assert(views(args@) == views(old(args)@).push(a@));
}

/// The command-line arguments of a template scan of `url` with `plan`: the
/// target, no colours, a timeout five seconds above the scan's, no
/// informational templates, the extra arguments cut at spaces, each template
/// location, the tag condition, quiet line-wise JSON output without update
/// checks, and the raw request and response where `irr` is set.
pub fn nuclei_args(
    url: &String,
    timeout: u64,
    nargs: &Option<String>,
    plan: &NucleiPlan,
    irr: bool,
) -> (res: Vec<String>)
    requires
        timeout <= u64::MAX - 5,
    ensures
        views(res@) == nuclei_args_spec(
            url@,
            timeout as nat,
            opt_view(*nargs),
            views(plan.templates@),
            plan.condition@,
            irr,
        ),
{
    let mut args: Vec<String> = Vec::new();
    push_arg(&mut args, owned("-u"));
    push_arg(&mut args, url.clone());
    push_arg(&mut args, owned("-no-color"));
    push_arg(&mut args, owned("-timeout"));
    push_arg(&mut args, decimal_string(timeout + 5));
    push_arg(&mut args, owned("-es"));
    push_arg(&mut args, owned("info"));
    let ghost head = views(args@);
    match nargs {
        Some(a) => {
            let extra = split_chars(&chars_of(a.as_str()), ' ');
            let mut i: usize = 0;
            while i < extra.len()
                invariant
                    i <= extra.len(),
                    views(args@) == head + views(extra@).take(i as int),
                decreases extra.len() - i,
            {
                push_arg(&mut args, extra[i].clone());
                assert(views(extra@).take(i + 1) == views(extra@).take(i as int).push(
                    extra@[i as int]@,
                ));
                i = i + 1;
            }
            assert(views(extra@).take(extra.len() as int) == views(extra@));
        },
        None => {},
    }
    let ghost mid = views(args@);
    let mut i: usize = 0;
    while i < plan.templates.len()
        invariant
            i <= plan.templates.len(),
            views(args@) == mid + template_flags(views(plan.templates@).take(i as int)),
        decreases plan.templates.len() - i,
    {
        assert(views(plan.templates@).take(i + 1).drop_last() == views(plan.templates@).take(
            i as int,
        ));
        push_arg(&mut args, owned("-t"));
        push_arg(&mut args, plan.templates[i].clone());
        i = i + 1;
    }
    assert(views(plan.templates@).take(plan.templates.len() as int) == views(plan.templates@));
    push_arg(&mut args, owned("-tc"));
    push_arg(&mut args, plan.condition.clone());
    push_arg(&mut args, owned("-silent"));
    push_arg(&mut args, owned("-jsonl"));
    push_arg(&mut args, owned("-duc"));
    if irr {
        push_arg(&mut args, owned("-irr"));
    }
    args
}

/// The output lines of a template scan, or `None` where its output is not
/// valid UTF-8.
pub open spec fn output_lines(stdout: Seq<u8>) -> Option<Seq<Seq<char>>> {
    if vstd::utf8::valid_utf8(stdout) {
        Some(split_terminator_seq(vstd::utf8::decode_utf8(stdout), '\n'))
    } else {
        None
    }
}

/// Cuts the output of a template scan into lines; `None` where it is not
/// valid UTF-8.
pub fn nuclei_output_lines(stdout: &[u8]) -> (res: Option<Vec<String>>)
    ensures
        match res {
            Some(lines) => output_lines(stdout@) == Some(views(lines@)),
            None => output_lines(stdout@) is None,
        },
{
    match utf8_text(stdout) {
        Some(text) => Some(split_terminator(text.as_str(), '\n')),
        None => None,
    }
}

/// The identifiers of template findings.
pub open spec fn template_ids(ts: Seq<TemplateResult>) -> Seq<Seq<char>> {
    ts.map_values(|t: TemplateResult| t.template_id@)
}

/// The kept findings of a result after `templates` were added.
pub open spec fn kept_findings(
    old_findings: Option<Vec<TemplateResult>>,
    templates: Seq<TemplateResult>,
) -> Seq<TemplateResult> {
    match old_findings {
        Some(v) => v@ + templates,
        None => templates,
    }
}

/// Takes the findings of a template scan into a result: its matched
/// templates become the result's plugins (each identifier once), a result
/// with any plugin gains one priority, and where `irr` is set the findings
/// are kept after those already kept. Nothing else changes.
pub fn apply_nuclei_templates(
    wwr: WhatWebResult,
    templates: Vec<TemplateResult>,
    irr: bool,
) -> (res: WhatWebResult)
    requires
        templates@.len() > 0 ==> wwr.priority < u32::MAX,
    ensures
        res.url == wwr.url,
        res.name == wwr.name,
        res.length == wwr.length,
        res.title == wwr.title,
        res.status_code == wwr.status_code,
        res.is_web == wwr.is_web,
        views(res.plugins@) == dedup(template_ids(templates@)),
        res.priority == if templates@.len() > 0 {
            wwr.priority + 1
        } else {
            wwr.priority as int
        },
        irr && templates@.len() > 0 ==> (res.plugins_result matches Some(v) && v@ == kept_findings(
            wwr.plugins_result,
            templates@,
        )),
        !(irr && templates@.len() > 0) ==> res.plugins_result == wwr.plugins_result,
{
    let mut wwr = wwr;
    let mut ids: Vec<String> = Vec::new();
    let mut i: usize = 0;
    while i < templates.len()
        invariant
            i <= templates.len(),
            views(ids@) == template_ids(templates@).take(i as int),
        decreases templates.len() - i,
    {
        let id = templates[i].template_id.clone();
        let ghost before = ids@;
        ids.push(id);
        assert(views(ids@) == views(before).push(id@));
        assert(template_ids(templates@).take(i + 1) == template_ids(templates@).take(i as int).push(
            templates@[i as int].template_id@,
        ));
        i = i + 1;
    }
    assert(template_ids(templates@).take(templates.len() as int) == template_ids(templates@));
    let plugins = dedup_strings(ids);
    proof {
        crate::text::lemma_dedup(template_ids(templates@));
        if templates@.len() > 0 {
            assert(template_ids(templates@)[0] == templates@[0].template_id@);
            assert(template_ids(templates@).contains(templates@[0].template_id@));
            assert(views(plugins@).contains(templates@[0].template_id@));
        }
        if plugins@.len() > 0 {
            assert(views(plugins@)[0] == plugins@[0]@);
            assert(views(plugins@).contains(plugins@[0]@));
            assert(template_ids(templates@).contains(plugins@[0]@));
        }
    }
    if irr && templates.len() > 0 {
        let mut tail = templates;
        let kept = match wwr.plugins_result.take() {
            Some(mut v) => {
                v.append(&mut tail);
                v
            },
            None => tail,
        };
        wwr.plugins_result = Some(kept);
    }
    if plugins.len() > 0 {
        wwr.priority = wwr.priority + 1;
    }
    wwr.plugins = plugins;
    wwr
}


/// A template scan runs only with a configured template path, and then
/// only when some recognised name has tag groups.
pub proof fn law_plan_needs_template_path(
    names: Seq<Seq<char>>,
    found: Seq<Seq<char>>,
    template_path: Option<Seq<char>>,
    tags: Map<Seq<char>, Vec<Vec<String>>>,
)
    ensures
        plan_runs(names, found, template_path, tags) <==> (template_path is Some && tag_conditions(
            names,
            tags,
        ).len() > 0),
{
}

/// After a template scan the plugins of a result are the identifiers of its
/// findings, each once, and its priority is one higher exactly when there
/// was a finding.
pub proof fn law_findings_become_plugins(templates: Seq<TemplateResult>)
    ensures
        dedup(template_ids(templates)).no_duplicates(),
        forall|id: Seq<char>|
            dedup(template_ids(templates)).contains(id) <==> exists|i: int|
                0 <= i < templates.len() && #[trigger] templates[i].template_id@ == id,
        (dedup(template_ids(templates)).len() > 0) == (templates.len() > 0),
{
    crate::text::lemma_dedup(template_ids(templates));
    assert forall|id: Seq<char>|
        dedup(template_ids(templates)).contains(id) <==> exists|i: int|
            0 <= i < templates.len() && #[trigger] templates[i].template_id@ == id by {
        if template_ids(templates).contains(id) {
            let i = choose|i: int| 0 <= i < templates.len() && template_ids(templates)[i] == id;
            assert(templates[i].template_id@ == id);
        }
        if exists|i: int| 0 <= i < templates.len() && #[trigger] templates[i].template_id@ == id {
            let i = choose|i: int| 0 <= i < templates.len() && #[trigger] templates[i].template_id@ == id;
            assert(template_ids(templates)[i] == id);
        }
    }
    if templates.len() > 0 {
        assert(template_ids(templates)[0] == templates[0].template_id@);
        assert(dedup(template_ids(templates)).contains(templates[0].template_id@));
    }
    if dedup(template_ids(templates)).len() > 0 {
        assert(dedup(template_ids(templates)).contains(dedup(template_ids(templates))[0]));
    }
}


/// `parts` with `sep` between neighbours, built from the front.
pub open spec fn joined_from_front<T>(parts: Seq<Seq<T>>, sep: Seq<T>) -> Seq<T>
    decreases parts.len(),
{
    if parts.len() == 0 {
        Seq::empty()
    } else if parts.len() == 1 {
        parts[0]
    } else {
        parts[0] + sep + joined_from_front(parts.drop_first(), sep)
    }
}

/// Joining from the back and from the front give the same.
proof fn lemma_join_front<T>(parts: Seq<Seq<T>>, sep: Seq<T>)
    ensures
        join_seq(parts, sep) == joined_from_front(parts, sep),
    decreases parts.len(),
{
    if parts.len() >= 2 {
        lemma_join_front(parts.drop_last(), sep);
        lemma_join_front(parts.drop_first(), sep);
        if parts.len() == 2 {
            assert(parts.drop_last().len() == 1);
            assert(parts.drop_first().len() == 1);
            assert(parts.drop_first()[0] == parts.last());
        } else {
            lemma_join_front(parts.drop_first().drop_last(), sep);
            assert(parts.drop_last().drop_first() == parts.drop_first().drop_last());
            assert(parts.drop_first().last() == parts.last());
            assert(parts.drop_last()[0] == parts[0]);
            let mid = join_seq(parts.drop_first().drop_last(), sep);
            assert(parts[0] + sep + mid + sep + parts.last() == parts[0] + sep + (mid + sep
                + parts.last()));
        }
    }
}

/// The conjunction of one `contains(tags,'t')` test per tag of `tags`, in
/// order, joined by `&&`.
pub open spec fn all_tags_test(tags: Seq<Seq<char>>) -> Seq<char>
    decreases tags.len(),
{
    if tags.len() == 0 {
        Seq::empty()
    } else if tags.len() == 1 {
        "contains(tags,'"@ + tags[0] + "')"@
    } else {
        "contains(tags,'"@ + tags[0] + "')"@ + "&&"@ + all_tags_test(tags.drop_first())
    }
}

/// The condition expected of one tag group: a single tag's test alone, and
/// otherwise the tests of all its tags together, in parentheses.
pub open spec fn expected_group_condition(tags: Seq<Seq<char>>) -> Seq<char> {
    if tags.len() == 1 {
        "contains(tags,'"@ + tags[0] + "')"@
    } else {
        "("@ + all_tags_test(tags) + ")"@
    }
}

/// The alternatives of `conds`, in order, joined by `||`.
pub open spec fn any_of(conds: Seq<Seq<char>>) -> Seq<char>
    decreases conds.len(),
{
    if conds.len() == 0 {
        Seq::empty()
    } else if conds.len() == 1 {
        conds[0]
    } else {
        conds[0] + "||"@ + any_of(conds.drop_first())
    }
}

proof fn lemma_all_tags_test(tags: Seq<Seq<char>>)
    ensures
        joined_from_front(tags.map_values(|t: Seq<char>| contains_clause(t)), "&&"@)
            == all_tags_test(tags),
    decreases tags.len(),
{
    let f = |t: Seq<char>| contains_clause(t);
    if tags.len() >= 2 {
        lemma_all_tags_test(tags.drop_first());
        assert(tags.map_values(f).drop_first() == tags.drop_first().map_values(f));
    }
}

proof fn lemma_any_of(conds: Seq<Seq<char>>)
    ensures
        joined_from_front(conds, "||"@) == any_of(conds),
    decreases conds.len(),
{
    if conds.len() >= 2 {
        lemma_any_of(conds.drop_first());
    }
}

/// The template condition of a list of tag groups is the alternative, in
/// order, of one condition per group: a group of one tag is its single
/// `contains(tags,'t')` test, and any other group the conjunction of the
/// tests of all its tags, in order, in parentheses.
pub proof fn law_tags_condition(groups: Seq<Seq<Seq<char>>>)
    ensures
        tags_condition(groups) == any_of(
            groups.map_values(|g: Seq<Seq<char>>| expected_group_condition(g)),
        ),
{
    let gc = |g: Seq<Seq<char>>| group_clause(g);
    let ec = |g: Seq<Seq<char>>| expected_group_condition(g);
    assert forall|i: int| 0 <= i < groups.len() implies #[trigger] gc(groups[i]) == ec(
        groups[i],
    ) by {
        let g = groups[i];
        lemma_join_front(g.map_values(|t: Seq<char>| contains_clause(t)), "&&"@);
        lemma_all_tags_test(g);
    }
    assert(groups.map_values(gc) == groups.map_values(ec));
    lemma_join_front(groups.map_values(gc), "||"@);
    lemma_any_of(groups.map_values(ec));
}

} // verus!
