use observer_ward::nuclei::{
    apply_nuclei_templates, gen_nuclei_tags, nuclei_args, nuclei_output_lines, nuclei_plan,
    NucleiPlan, TagTable,
};
use observer_ward::result::{TemplateResult, WhatWebResult};

fn s(x: &str) -> String {
    x.to_string()
}

fn strs(v: &[&str]) -> Vec<String> {
    v.iter().map(|x| x.to_string()).collect()
}

fn groups(v: &[&[&str]]) -> Vec<Vec<String>> {
    v.iter().map(|g| strs(g)).collect()
}

#[test]
fn gen_nuclei_tags_single_tags_are_alternatives() {
    let got = gen_nuclei_tags(&groups(&[&["tomcat"], &["apache"]]));
    assert_eq!(got, "contains(tags,'tomcat')||contains(tags,'apache')");
}

#[test]
fn gen_nuclei_tags_group_is_conjunction_in_parentheses() {
    let got = gen_nuclei_tags(&groups(&[&["weblogic", "rce"], &["oracle"]]));
    assert_eq!(
        got,
        "(contains(tags,'weblogic')&&contains(tags,'rce'))||contains(tags,'oracle')"
    );
}

#[test]
fn gen_nuclei_tags_empty_list_and_empty_group() {
    assert_eq!(gen_nuclei_tags(&vec![]), "");
    assert_eq!(gen_nuclei_tags(&vec![vec![]]), "()");
}

fn tag_table() -> TagTable {
    let mut t = TagTable::new();
    t.insert(s("tomcat"), groups(&[&["tomcat"]]));
    t.insert(s("shiro"), groups(&[&["shiro", "rce"]]));
    t
}

#[test]
fn nuclei_plan_with_template_path_uses_tags() {
    let names = strs(&["tomcat", "nginx", "shiro"]);
    let plan = nuclei_plan(&names, strs(&["/p/tomcat"]), &Some(s("/templates")), &tag_table());
    assert_eq!(
        plan,
        Some(NucleiPlan {
            templates: strs(&["/p/tomcat", "/templates"]),
            condition: s("contains(tags,'tomcat')||(contains(tags,'shiro')&&contains(tags,'rce'))"),
        })
    );
}

#[test]
fn nuclei_plan_without_template_path_does_not_run() {
    let names = strs(&["tomcat"]);
    assert_eq!(nuclei_plan(&names, strs(&["/p/tomcat"]), &None, &tag_table()), None);
}

#[test]
fn nuclei_plan_without_tagged_names_does_not_run() {
    let names = strs(&["nginx"]);
    assert_eq!(nuclei_plan(&names, vec![], &Some(s("/t")), &tag_table()), None);
}

#[test]
fn nuclei_args_full_command_line() {
    let plan = NucleiPlan { templates: strs(&["/a", "/b"]), condition: s("contains(tags,'x')") };
    let args = nuclei_args(&s("http://h/"), 10, &Some(s("-rl 5")), &plan, true);
    assert_eq!(
        args,
        strs(&[
            "-u", "http://h/", "-no-color", "-timeout", "15", "-es", "info", "-rl", "5", "-t",
            "/a", "-t", "/b", "-tc", "contains(tags,'x')", "-silent", "-jsonl", "-duc", "-irr",
        ])
    );
}

#[test]
fn nuclei_args_without_extras() {
    let plan = NucleiPlan { templates: strs(&["/a"]), condition: s("c") };
    let args = nuclei_args(&s("u"), 0, &None, &plan, false);
    assert_eq!(
        args,
        strs(&["-u", "u", "-no-color", "-timeout", "5", "-es", "info", "-t", "/a", "-tc", "c",
            "-silent", "-jsonl", "-duc"])
    );
}

#[test]
fn nuclei_args_extra_spaces_give_empty_arguments() {
    let plan = NucleiPlan { templates: vec![], condition: s("c") };
    let args = nuclei_args(&s("u"), 995, &Some(s("a  b")), &plan, false);
    assert_eq!(&args[4], "1000");
    assert_eq!(&args[7..10], &strs(&["a", "", "b"])[..]);
}

#[test]
fn nuclei_output_lines_splits_valid_output() {
    assert_eq!(nuclei_output_lines(b"{\"a\":1}\n{\"b\":2}\n"), Some(strs(&["{\"a\":1}", "{\"b\":2}"])));
    assert_eq!(nuclei_output_lines(b""), Some(vec![]));
}

#[test]
fn nuclei_output_lines_rejects_invalid_utf8() {
    assert_eq!(nuclei_output_lines(&[b'a', 0xc3]), None);
}

fn template(id: &str) -> TemplateResult {
    TemplateResult {
        template_id: s(id),
        severity: s("high"),
        matched_at: s("http://h/x"),
        curl_command: String::new(),
        raw: format!("{{\"template-id\":\"{}\"}}", id),
    }
}

fn result() -> WhatWebResult {
    WhatWebResult {
        url: s("http://h/"),
        name: strs(&["tomcat"]),
        priority: 3,
        length: 10,
        title: s("t"),
        status_code: 200,
        is_web: true,
        plugins: strs(&["old"]),
        plugins_result: None,
    }
}

#[test]
fn apply_templates_sets_plugins_and_raises_priority() {
    let out = apply_nuclei_templates(result(), vec![template("cve-1"), template("cve-2"), template("cve-1")], false);
    assert_eq!(out.plugins, strs(&["cve-1", "cve-2"]));
    assert_eq!(out.priority, 4);
    assert_eq!(out.plugins_result, None);
    assert_eq!(out.name, strs(&["tomcat"]));
}

#[test]
fn apply_templates_without_findings_clears_plugins() {
    let out = apply_nuclei_templates(result(), vec![], true);
    assert_eq!(out.plugins, Vec::<String>::new());
    assert_eq!(out.priority, 3);
    assert_eq!(out.plugins_result, None);
}

#[test]
fn apply_templates_keeps_findings_with_irr() {
    let mut r = result();
    r.plugins_result = Some(vec![template("earlier")]);
    let out = apply_nuclei_templates(r, vec![template("cve-9")], true);
    assert_eq!(out.plugins_result, Some(vec![template("earlier"), template("cve-9")]));
    assert_eq!(out.plugins, strs(&["cve-9"]));
}
