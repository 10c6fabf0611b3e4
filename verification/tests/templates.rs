use procman::expand::{drop_template_list, expand_template, merge_processes, merge_table, plan_expansion, TomlValue};
use procman::template::{check_vars_in_string, extract_vars_from_template, render_template_string};

fn pairs(v: &[(&str, &str)]) -> Vec<(String, String)> {
    v.iter().map(|(a, b)| (a.to_string(), b.to_string())).collect()
}

fn text(s: &str) -> TomlValue {
    TomlValue::Text(s.to_string())
}

fn table(v: Vec<(&str, TomlValue)>) -> TomlValue {
    TomlValue::Table(v.into_iter().map(|(k, x)| (k.to_string(), x)).collect())
}

fn entries(v: &TomlValue) -> &Vec<(String, TomlValue)> {
    match v {
        TomlValue::Table(t) => t,
        _ => panic!("not a table"),
    }
}

fn get<'a>(v: &'a TomlValue, k: &str) -> Option<&'a TomlValue> {
    entries(v).iter().find(|(key, _)| key == k).map(|(_, x)| x)
}

fn text_of(v: Option<&TomlValue>) -> Option<String> {
    match v {
        Some(TomlValue::Text(s)) => Some(s.clone()),
        _ => None,
    }
}

const PODMAN: &str = "command = \"podman run --name {{ container_name }} {{image}}\"\nstop = \"podman stop {{container_name}}\"";

#[test]
fn extract_vars_in_first_occurrence_order() {
    assert_eq!(extract_vars_from_template(PODMAN), vec!["container_name", "image"]);
    assert_eq!(extract_vars_from_template("{{ a-b_1 }}{{x}} {{ 9bad }} {{ a-b_1}}"), vec!["a-b_1", "x"]);
    assert!(extract_vars_from_template("{ {x} } {{}} {{ x y }}").is_empty());
}

#[test]
fn render_replaces_placeholders() {
    let vars = pairs(&[("container_name", "web"), ("image", "nginx")]);
    assert_eq!(
        render_template_string(PODMAN, &vars),
        "command = \"podman run --name web nginx\"\nstop = \"podman stop web\""
    );
    assert_eq!(render_template_string("[{{missing}}]", &vars), "[]");
    assert_eq!(render_template_string("{{{x}}}", &pairs(&[("x", "1")])), "{1}");
}

#[test]
fn check_vars_accepts_exact_set() {
    let vars = pairs(&[("template", "podman"), ("container_name", "web"), ("image", "nginx")]);
    assert_eq!(check_vars_in_string(PODMAN, &vars), Ok(()));
}

#[test]
fn check_vars_refuses_extra() {
    let vars = pairs(&[("container_name", "web"), ("image", "nginx"), ("port", "80")]);
    assert_eq!(
        check_vars_in_string(PODMAN, &vars),
        Err("Extra variables in input map: [\"port\"]".to_string())
    );
}

#[test]
fn check_vars_refuses_missing() {
    let vars = pairs(&[("template", "podman"), ("image", "nginx")]);
    assert_eq!(
        check_vars_in_string(PODMAN, &vars),
        Err("Missing variables in input map: [\"container_name\"]".to_string())
    );
}

fn templates() -> Vec<(String, String)> {
    pairs(&[("podman", PODMAN)])
}

fn doc_with(procs: Vec<TomlValue>) -> TomlValue {
    table(vec![("uid", text("u")), ("process", TomlValue::Array(procs))])
}

#[test]
fn plan_renders_template_processes() {
    let p0 = table(vec![("id", text("plain")), ("command", text("sleep 1"))]);
    let p1 = table(vec![
        ("id", text("web")),
        ("template", table(vec![("template", text("podman")), ("container_name", text("web")), ("image", text("nginx"))])),
    ]);
    let plan = plan_expansion(&doc_with(vec![p0, p1]), &templates());
    assert!(plan.failure.is_none());
    assert_eq!(plan.renderings.len(), 1);
    assert_eq!(plan.renderings[0].0, 1);
    assert_eq!(plan.renderings[0].1, "command = \"podman run --name web nginx\"\nstop = \"podman stop web\"");
}

#[test]
fn plan_refusals() {
    let no_procs = table(vec![("uid", text("u"))]);
    assert_eq!(plan_expansion(&no_procs, &templates()).failure, Some("No processes found".to_string()));
    let no_id = doc_with(vec![table(vec![("command", text("x"))])]);
    assert_eq!(plan_expansion(&no_id, &templates()).failure, Some("Process ID not found or is not a string".to_string()));
    let no_name = doc_with(vec![table(vec![("id", text("w")), ("template", table(vec![("image", text("n"))]))])]);
    assert_eq!(plan_expansion(&no_name, &templates()).failure, Some("Missing 'template' field in process 'w'".to_string()));
    let unknown = doc_with(vec![table(vec![("id", text("w")), ("template", table(vec![("template", text("docker"))]))])]);
    assert_eq!(plan_expansion(&unknown, &templates()).failure, Some("Template 'docker' not found".to_string()));
    let bad_vars = doc_with(vec![table(vec![("id", text("w")), ("template", table(vec![("template", text("podman")), ("image", text("n"))]))])]);
    assert_eq!(
        plan_expansion(&bad_vars, &templates()).failure,
        Some("Error in template 'podman', process id 'w': Missing variables in input map: [\"container_name\"]".to_string())
    );
}

#[test]
fn plan_stops_at_first_refusal_keeping_earlier_renderings() {
    let good = table(vec![
        ("id", text("web")),
        ("template", table(vec![("template", text("podman")), ("container_name", text("web")), ("image", text("nginx"))])),
    ]);
    let bad = table(vec![("command", text("x"))]);
    let plan = plan_expansion(&doc_with(vec![good, bad]), &templates());
    assert_eq!(plan.renderings.len(), 1);
    assert_eq!(plan.failure, Some("Process ID not found or is not a string".to_string()));
}

#[test]
fn merge_sets_rendered_entries_and_drops_template() {
    let t = vec![
        ("id".to_string(), text("web")),
        ("command".to_string(), text("old")),
        ("template".to_string(), table(vec![])),
    ];
    let rendered = vec![("command".to_string(), text("new")), ("stop".to_string(), text("s"))];
    let out = merge_table(t, rendered);
    let keys: Vec<&str> = out.iter().map(|(k, _)| k.as_str()).collect();
    assert_eq!(keys, vec!["id", "command", "stop"]);
    assert_eq!(text_of(out.iter().find(|(k, _)| k == "command").map(|(_, v)| v)), Some("new".to_string()));
}

#[test]
fn merge_processes_and_drop_template_list() {
    let p0 = table(vec![("id", text("plain"))]);
    let p1 = table(vec![("id", text("web")), ("template", table(vec![]))]);
    let doc = table(vec![
        ("process", TomlValue::Array(vec![p0, p1])),
        ("template", TomlValue::Array(vec![])),
    ]);
    let merged = merge_processes(doc, vec![(1, vec![("command".to_string(), text("run"))])]);
    let out = drop_template_list(merged);
    assert!(get(&out, "template").is_none());
    match get(&out, "process") {
        Some(TomlValue::Array(ps)) => {
            assert_eq!(ps.len(), 2);
            assert!(get(&ps[0], "command").is_none());
            assert_eq!(text_of(get(&ps[1], "command")), Some("run".to_string()));
            assert!(get(&ps[1], "template").is_none());
        }
        _ => panic!("no process array"),
    }
}

#[test]
fn template_table_that_is_not_a_list_stays() {
    let doc = table(vec![("template", text("keep"))]);
    let out = drop_template_list(doc);
    assert_eq!(text_of(get(&out, "template")), Some("keep".to_string()));
}

#[test]
fn expand_template_end_to_end() {
    let input = "uid = \"u\"\nfile-format = \"0\"\n\n[[process]]\nid = \"plain\"\ncommand = \"sleep 1\"\n\n[[process]]\nid = \"web\"\nport = 8080\n[process.template]\ntemplate = \"podman\"\ncontainer_name = \"web\"\nimage = \"nginx\"\n";
    let out = expand_template(input, &templates()).unwrap();
    match get(&out, "process") {
        Some(TomlValue::Array(ps)) => {
            assert_eq!(ps.len(), 2);
            assert_eq!(text_of(get(&ps[0], "command")), Some("sleep 1".to_string()));
            assert_eq!(text_of(get(&ps[1], "command")), Some("podman run --name web nginx".to_string()));
            assert_eq!(text_of(get(&ps[1], "stop")), Some("podman stop web".to_string()));
            assert!(get(&ps[1], "template").is_none());
            assert!(matches!(get(&ps[1], "port"), Some(TomlValue::Other(_))));
        }
        _ => panic!("no process array"),
    }
    assert_eq!(text_of(get(&out, "uid")), Some("u".to_string()));
}

#[test]
fn expand_template_refusals() {
    assert!(expand_template("uid = ", &templates()).is_err());
    assert_eq!(expand_template("uid = \"u\"", &templates()).err(), Some("No processes found".to_string()));
    let bad = pairs(&[("broken", "command = {{ x }}")]);
    let input = "[[process]]\nid = \"a\"\n[process.template]\ntemplate = \"broken\"\nx = \"not valid\"\n\n[[process]]\ncommand = \"no id\"\n";
    assert_eq!(
        expand_template(input, &bad).err(),
        Some("Template does not produce valid TOML\ncommand = not valid".to_string())
    );
    let ok = pairs(&[("fine", "command = \"{{ x }}\"")]);
    let input2 = "[[process]]\nid = \"a\"\n[process.template]\ntemplate = \"fine\"\nx = \"run\"\n\n[[process]]\ncommand = \"no id\"\n";
    assert_eq!(expand_template(input2, &ok).err(), Some("Process ID not found or is not a string".to_string()));
}
