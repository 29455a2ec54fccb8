use dotling::template::{has_template_tags, render, scan_variables, MachineFacts, RenderContext};

fn pairs(v: &[(&str, &str)]) -> Vec<(String, String)> {
    v.iter().map(|(k, x)| (k.to_string(), x.to_string())).collect()
}

fn test_ctx() -> RenderContext {
    RenderContext {
        builtins: pairs(&[
            ("hostname", "test-host"),
            ("username", "testuser"),
            ("os", "linux"),
            ("arch", "x86_64"),
            ("home", "/home/testuser"),
            ("repo", "/home/testuser/dotfiles"),
        ]),
        vars: pairs(&[("myvar", "hello"), ("label", "MacBook Air")]),
        env: pairs(&[("HOME", "/home/testuser")]),
    }
}

fn facts() -> MachineFacts {
    MachineFacts {
        hostname: "box".into(),
        username: "me".into(),
        os: "linux".into(),
        arch: "x86_64".into(),
        home: "/home/me".into(),
        env: vec![],
    }
}

#[test]
fn render_simple_var() {
    let ctx = test_ctx();
    let out = render("host={{ var.myvar }}", &ctx, "test.dtmpl").unwrap();
    assert_eq!(out, "host=hello");
}

#[test]
fn render_builtin() {
    let ctx = test_ctx();
    let out = render("os={{ dotling.os }}", &ctx, "test.dtmpl").unwrap();
    assert_eq!(out, "os=linux");
}

#[test]
fn render_env() {
    let ctx = test_ctx();
    let out = render("home={{ env.HOME }}", &ctx, "test.dtmpl").unwrap();
    assert_eq!(out, "home=/home/testuser");
}

#[test]
fn render_filter_upper() {
    let ctx = test_ctx();
    let out = render("{{ var.myvar | upper }}", &ctx, "test.dtmpl").unwrap();
    assert_eq!(out, "HELLO");
}

#[test]
fn render_filter_lower() {
    let ctx = test_ctx();
    let out = render("{{ var.label | lower }}", &ctx, "test.dtmpl").unwrap();
    assert_eq!(out, "macbook air");
}

#[test]
fn render_filter_trim() {
    let mut ctx = test_ctx();
    ctx.vars.push(("padded".into(), "  hello  ".into()));
    let out = render("{{ var.padded | trim }}", &ctx, "test.dtmpl").unwrap();
    assert_eq!(out, "hello");
}

#[test]
fn render_filter_quote() {
    let ctx = test_ctx();
    let out = render("{{ var.myvar | quote }}", &ctx, "test.dtmpl").unwrap();
    assert_eq!(out, "\"hello\"");
}

#[test]
fn render_filter_squote() {
    let ctx = test_ctx();
    let out = render("{{ var.myvar | squote }}", &ctx, "test.dtmpl").unwrap();
    assert_eq!(out, "'hello'");
}

#[test]
fn render_filter_default_when_missing() {
    let ctx = test_ctx();
    let out = render(r#"{{ var.missing | default "fallback" }}"#, &ctx, "test.dtmpl").unwrap();
    assert_eq!(out, "fallback");
}

#[test]
fn render_filter_default_not_applied_when_present() {
    let ctx = test_ctx();
    let out = render(r#"{{ var.myvar | default "fallback" }}"#, &ctx, "test.dtmpl").unwrap();
    assert_eq!(out, "hello");
}

#[test]
fn render_whitespace_trim_both() {
    let ctx = test_ctx();
    let out = render("  {{- var.myvar -}}  next", &ctx, "test.dtmpl").unwrap();
    assert_eq!(out, "hellonext");
}

#[test]
fn render_whitespace_trim_left() {
    let ctx = test_ctx();
    let out = render("  {{- var.myvar }} rest", &ctx, "test.dtmpl").unwrap();
    assert_eq!(out, "hello rest");
}

#[test]
fn render_whitespace_trim_right() {
    let ctx = test_ctx();
    let out = render("pre {{ var.myvar -}}  rest", &ctx, "test.dtmpl").unwrap();
    assert_eq!(out, "pre hellorest");
}

#[test]
fn render_unresolved_error() {
    let ctx = test_ctx();
    let result = render("{{ var.nonexistent }}", &ctx, "test.dtmpl");
    assert!(result.is_err());
    let msg = result.unwrap_err().to_text();
    assert!(msg.contains("unresolved"));
}

#[test]
fn render_unknown_filter_error() {
    let ctx = test_ctx();
    let result = render("{{ var.myvar | notafilter }}", &ctx, "test.dtmpl");
    assert!(result.is_err());
    let msg = result.unwrap_err().to_text();
    assert!(msg.contains("unknown filter"));
}

#[test]
fn render_unknown_namespace_error() {
    let ctx = test_ctx();
    let result = render("{{ bad.thing }}", &ctx, "test.dtmpl");
    assert!(result.is_err());
    let msg = result.unwrap_err().to_text();
    assert!(msg.contains("unknown namespace"));
}

#[test]
fn render_missing_close_error() {
    let ctx = test_ctx();
    let result = render("{{ var.x", &ctx, "test.dtmpl");
    assert!(result.is_err());
}

#[test]
fn render_no_tags_passthrough() {
    let ctx = test_ctx();
    let src = "plain text\nno tags here";
    let out = render(src, &ctx, "test.dtmpl").unwrap();
    assert_eq!(out, src);
}

#[test]
fn scan_variables_basic() {
    let src = "a={{ var.x }}\nb={{ dotling.hostname }}\nc={{ env.HOME }}";
    let vars = scan_variables(src);
    assert_eq!(vars.len(), 3);
    assert_eq!(vars[0].namespace, "var");
    assert_eq!(vars[0].key, "x");
    assert_eq!(vars[1].namespace, "dotling");
    assert_eq!(vars[1].key, "hostname");
    assert_eq!(vars[2].namespace, "env");
    assert_eq!(vars[2].key, "HOME");
}

#[test]
fn scan_variables_empty() {
    let vars = scan_variables("no template tags here");
    assert!(vars.is_empty());
}

#[test]
fn scan_variables_deduplicates() {
    let src = "{{ var.x }} {{ var.x }} {{ var.y }}";
    let vars = scan_variables(src);
    assert_eq!(vars.len(), 2);
}

#[test]
fn var_priority_local_over_config() {
    let config_vars = vec![("key".to_string(), "config_val".to_string())];
    let local_vars = vec![("key".to_string(), "local_val".to_string())];
    let ctx = RenderContext::new("/repo", &config_vars, &local_vars, facts());
    let out = render("{{ var.key }}", &ctx, "t.dtmpl").unwrap();
    assert_eq!(out, "local_val");
}

#[test]
fn var_falls_back_to_config_default() {
    let config_vars = vec![("key".to_string(), "config_val".to_string())];
    let local_vars: Vec<(String, String)> = vec![];
    let ctx = RenderContext::new("/repo", &config_vars, &local_vars, facts());
    let out = render("{{ var.key }}", &ctx, "t.dtmpl").unwrap();
    assert_eq!(out, "config_val");
}

#[test]
fn eval_script_fails_in_pure_mode() {
    let ctx = test_ctx();
    let result = render("{{ `echo hello` }}", &ctx, "test.dtmpl");
    assert!(result.unwrap_err().to_text().contains("cannot be executed in this context"));
}

#[test]
fn scan_variables_ignores_scripts() {
    let vars = scan_variables("{{ `echo $USER` | upper }} {{ var.x }}");
    assert_eq!(vars.len(), 1);
    assert_eq!(vars[0].key, "x");
}

#[test]
fn context_builtins_come_from_machine_facts() {
    let ctx = RenderContext::new("/repo", &[], &[], facts());
    assert_eq!(render("{{ dotling.hostname }}@{{ dotling.repo }}", &ctx, "t").unwrap(), "box@/repo");
    assert_eq!(ctx.resolve("dotling", "username").as_deref(), Some("me"));
    assert_eq!(ctx.resolve("nope", "x"), None);
}

#[test]
fn tags_are_detected() {
    assert!(has_template_tags("a {{ var.x }}"));
    assert!(!has_template_tags("no tags"));
}

#[test]
fn error_names_the_template() {
    let ctx = test_ctx();
    let msg = render("{{ var.nonexistent }}", &ctx, "shell/zshrc.dtmpl").unwrap_err().to_text();
    assert!(msg.starts_with("template `shell/zshrc.dtmpl`: "));
}
