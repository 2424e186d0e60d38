use squid::settings::setting;
use squid::app::{
    first_rebuild_step, new_file_content, new_file_name, next_rebuild_step, App, Args, Commands,
    FileChangeType, RebuildStep, RunPlan, StepOutcome,
};
use squid::http::{
    after_send, is_html_content_type, is_livereload_path, on_stream_event, with_reload_script,
    StreamAction, StreamEvent, LIVERELOAD_PATH, RELOAD_SCRIPT,
};

fn no_args() -> Args {
    Args {
        command: None,
        template_folder: None,
        markdown_folder: None,
        static_resources: None,
        template_variables: None,
        output_folder: None,
        watch: false,
        serve: None,
    }
}

#[test]
fn test_new_command_creates_markdown_file() {
    assert_eq!(new_file_name("my-first-post"), "my-first-post.md");
    let content = new_file_content("my-first-post", "2024-01-10");
    assert!(content.contains("my first post"));
    assert!(content.contains("date:"));
}

#[test]
fn new_file_content_is_exact() {
    assert_eq!(
        new_file_content("a-b--c", "2024-01-10"),
        "---\ntitle: a b  c\ndate: 2024-01-10\n---\n"
    );
}

#[test]
fn plan_for_the_new_subcommand_creates_a_file() {
    let mut args = no_args();
    args.command = Some(Commands::New { folder: "posts".into(), name: "hello".into() });
    let plan = App::new(args).plan();
    assert!(matches!(plan, RunPlan::CreateFile { ref folder, ref name } if folder == "posts" && name == "hello"));
}

#[test]
fn plan_requires_template_then_output_folder() {
    let plan = App::new(no_args()).plan();
    assert!(matches!(plan, RunPlan::MissingTemplateFolder));

    let mut args = no_args();
    args.output_folder = Some("out".into());
    assert!(matches!(App::new(args).plan(), RunPlan::MissingTemplateFolder));

    let mut args = no_args();
    args.template_folder = Some("templates".into());
    assert!(matches!(App::new(args).plan(), RunPlan::MissingOutputFolder));
}

#[test]
fn plan_builds_with_serve_and_watch_settings() {
    let mut args = no_args();
    args.template_folder = Some("templates".into());
    args.output_folder = Some("out".into());
    args.serve = Some(8181);
    args.watch = true;
    let plan = App::new(args).plan();
    assert!(matches!(
        plan,
        RunPlan::Build { ref template_folder, ref output_folder, serve: Some(8181), watch: true }
            if template_folder == "templates" && output_folder == "out"
    ));
}

#[test]
fn a_served_site_is_rebuilt_on_changes() {
    let mut args = no_args();
    args.template_folder = Some("templates".into());
    args.output_folder = Some("out".into());
    args.serve = Some(8080);
    assert!(matches!(App::new(args).plan(), RunPlan::Build { serve: Some(8080), watch: true, .. }));

    let mut args = no_args();
    args.template_folder = Some("templates".into());
    args.output_folder = Some("out".into());
    assert!(matches!(App::new(args).plan(), RunPlan::Build { serve: None, watch: false, .. }));
}

#[test]
fn watch_targets_follow_registration_order() {
    let mut args = no_args();
    args.template_folder = Some("t".into());
    args.static_resources = Some("s".into());
    args.template_variables = Some("c.toml".into());
    let targets = App::new(args).watch_targets();
    assert_eq!(targets.len(), 3);
    assert!(targets[0].0 == "t" && matches!(targets[0].1, FileChangeType::Template));
    assert!(targets[1].0 == "c.toml" && matches!(targets[1].1, FileChangeType::Config));
    assert!(targets[2].0 == "s" && matches!(targets[2].1, FileChangeType::Static));
    assert!(App::new(no_args()).watch_targets().is_empty());
}

#[test]
fn markdown_change_falls_back_to_a_full_rebuild() {
    let step = first_rebuild_step(&FileChangeType::Markdown);
    assert!(matches!(step, RebuildStep::RebuildMarkdown));
    let step = next_rebuild_step(&step, &StepOutcome::Done);
    assert!(matches!(step, RebuildStep::CompileTemplates));
    let step = next_rebuild_step(&step, &StepOutcome::Error);
    assert!(matches!(step, RebuildStep::BuildFromScratch));
    let step = next_rebuild_step(&step, &StepOutcome::Error);
    assert!(matches!(step, RebuildStep::Finished));
}

#[test]
fn template_change_without_incremental_work_rebuilds_everything() {
    let step = first_rebuild_step(&FileChangeType::Template);
    assert!(matches!(step, RebuildStep::BuildIncremental));
    let step = next_rebuild_step(&step, &StepOutcome::NothingToDo);
    assert!(matches!(step, RebuildStep::BuildFromScratchOrFail));
    let failed = next_rebuild_step(&step, &StepOutcome::Error);
    assert!(matches!(failed, RebuildStep::Failed));
    let done = next_rebuild_step(&step, &StepOutcome::Done);
    assert!(matches!(done, RebuildStep::ProcessFiles));
    assert!(matches!(next_rebuild_step(&done, &StepOutcome::Done), RebuildStep::Finished));
}

#[test]
fn config_and_static_changes_start_where_expected() {
    assert!(matches!(first_rebuild_step(&FileChangeType::Config), RebuildStep::BuildIncremental));
    let step = first_rebuild_step(&FileChangeType::Static);
    assert!(matches!(step, RebuildStep::CopyStatic));
    assert!(matches!(next_rebuild_step(&step, &StepOutcome::Error), RebuildStep::Finished));
}

#[test]
fn livereload_path_is_matched_exactly() {
    assert!(is_livereload_path(LIVERELOAD_PATH));
    assert!(is_livereload_path("/__squid/livereload"));
    assert!(!is_livereload_path("/__squid/livereload/"));
    assert!(!is_livereload_path("/index.html"));
}

#[test]
fn html_content_types_are_recognised_by_prefix() {
    assert!(is_html_content_type(Some("text/html")));
    assert!(is_html_content_type(Some("text/html; charset=utf-8")));
    assert!(!is_html_content_type(Some("text/css")));
    assert!(!is_html_content_type(Some("TEXT/HTML")));
    assert!(!is_html_content_type(None));
}

#[test]
fn reload_script_is_appended_to_html_only() {
    let body = b"<html></html>".to_vec();
    let with = with_reload_script(body.clone(), true);
    let mut expected = body.clone();
    expected.extend_from_slice(RELOAD_SCRIPT.as_bytes());
    assert_eq!(with, expected);
    assert!(String::from_utf8(with).unwrap().contains("EventSource('/__squid/livereload')"));
    assert_eq!(with_reload_script(body.clone(), false), body);
}

#[test]
fn stream_reacts_to_each_event() {
    assert!(matches!(on_stream_event(&StreamEvent::Rebuilt), StreamAction::SendReload));
    assert!(matches!(on_stream_event(&StreamEvent::Lagged), StreamAction::Wait));
    assert!(matches!(on_stream_event(&StreamEvent::Closed), StreamAction::Stop));
    assert!(matches!(after_send(true), StreamAction::Wait));
    assert!(matches!(after_send(false), StreamAction::Stop));
}

#[test]
fn test_init_command_creates_structure() {
    let mut args = no_args();
    args.command = Some(Commands::Init);
    assert!(matches!(App::new(args).plan(), RunPlan::Scaffold));

    let folders = squid::app::scaffold_folders_list();
    for f in ["templates", "static", "output", "markdown/posts"] {
        assert!(folders.iter().any(|g| g == f), "missing folder {f}");
    }
    let files = squid::app::scaffold_files("2024-01-10");
    for f in [
        "config.toml",
        "templates/index.template",
        "templates/_posts.template",
        "markdown/posts/hello-world.md",
    ] {
        assert!(files.iter().any(|(p, _)| p == f), "missing file {f}");
    }
    let config = &files.iter().find(|(p, _)| p == "config.toml").unwrap().1;
    assert!(config.contains("website_name"));
    let post = &files.iter().find(|(p, _)| p == "markdown/posts/hello-world.md").unwrap().1;
    assert!(post.starts_with("---\ntitle: hello world\ndate: 2024-01-10\n---\n"));
}

#[test]
fn test_init_command_skips_existing_files() {
    let files = squid::app::scaffold_files("2024-01-10");
    let exists: Vec<bool> = files.iter().map(|(p, _)| p == "config.toml").collect();
    let to_write = squid::app::files_to_write(files, &exists);
    assert_eq!(to_write.len(), 3);
    assert!(to_write.iter().all(|(p, _)| p != "config.toml"));
}

#[test]
fn settings_are_read_from_quoted_lines() {
    let text = "# site\nwebsite_name = \"My website\"\n  website_url=\"https://example.com/\"  \nbroken = unquoted\nwebsite_name = \"second\"\n";
    assert_eq!(setting(text, "website_name").as_deref(), Some("My website"));
    assert_eq!(setting(text, "website_url").as_deref(), Some("https://example.com/"));
    assert_eq!(setting(text, "broken"), None);
    assert_eq!(setting(text, "missing"), None);
    assert_eq!(setting("", "website_name"), None);
}
