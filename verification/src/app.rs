//! The command-line application's decisions: what a run does with its
//! arguments, what a new content file holds, which folders are watched, and
//! how the site is rebuilt after a change.
use vstd::prelude::*;
use crate::text::{chars_of, push_str, replace_all, replaced, string_from_chars, string_of};

verus! {

/// A subcommand.
pub enum Commands {
    /// Create a new content file `name` in `folder`.
    New { folder: String, name: String },
    /// Lay out a new site in the current folder.
    Init,
}

/// The command-line arguments.
pub struct Args {
    pub command: Option<Commands>,
    pub template_folder: Option<String>,
    pub markdown_folder: Option<String>,
    pub static_resources: Option<String>,
    pub template_variables: Option<String>,
    pub output_folder: Option<String>,
    pub watch: bool,
    pub serve: Option<u16>,
}

/// The application, holding its arguments.
pub struct App {
    pub args: Args,
}

/// What a run does.
pub enum RunPlan {
    /// Create the content file `name` in `folder` and stop.
    CreateFile { folder: String, name: String },
    /// Lay out a new site, keeping the files that already exist, and stop.
    Scaffold,
    /// Stop with an error: `--template-folder` is required.
    MissingTemplateFolder,
    /// Stop with an error: `--output-folder` is required.
    MissingOutputFolder,
    /// Build the site into `output_folder` from `template_folder`, serve it
    /// on `serve` when a port is given, and rebuild it on changes when
    /// `watch` holds: always while serving, else when `--watch` is given.
    Build { template_folder: String, output_folder: String, serve: Option<u16>, watch: bool },
}

/// The kinds of watched files.
pub enum FileChangeType {
    Template,
    Markdown,
    Config,
    Static,
}

/// The plan a run follows for `args`: the `new` subcommand creates a file;
/// otherwise a template folder and an output folder are required, in that
/// order, and the site is built; a served site is always rebuilt on
/// changes.
pub open spec fn plans(args: Args, plan: RunPlan) -> bool {
    match args.command {
        Some(Commands::New { folder, name }) => plan matches RunPlan::CreateFile { folder: f, name: n }
            && f@ == folder@ && n@ == name@,
        Some(Commands::Init) => plan is Scaffold,
        None => match (args.template_folder, args.output_folder) {
            (None, _) => plan is MissingTemplateFolder,
            (Some(_), None) => plan is MissingOutputFolder,
            (Some(t), Some(o)) => plan matches RunPlan::Build { template_folder: pt, output_folder: po, serve, watch }
                && pt@ == t@ && po@ == o@ && serve == args.serve && watch == (args.watch || args.serve is Some),
        },
    }
}

fn copy(s: &String) -> (res: String)
    ensures
        res@ == s@,
{
    s.clone()
}

/// The watched folders for the given arguments, in the order they are
/// registered: templates, markdown, template variables, static resources.
pub open spec fn watch_list(args: Args) -> Seq<(Seq<char>, FileChangeType)> {
    let t = match args.template_folder {
        Some(f) => seq![(f@, FileChangeType::Template)],
        None => Seq::empty(),
    };
    let m = match args.markdown_folder {
        Some(f) => seq![(f@, FileChangeType::Markdown)],
        None => Seq::empty(),
    };
    let c = match args.template_variables {
        Some(f) => seq![(f@, FileChangeType::Config)],
        None => Seq::empty(),
    };
    let s = match args.static_resources {
        Some(f) => seq![(f@, FileChangeType::Static)],
        None => Seq::empty(),
    };
    t + m + c + s
}

/// Every folder the arguments name is watched, with the kind of file it
/// holds, and nothing else is: templates, markdown, template variables
/// (configuration) and static resources.
pub proof fn lemma_watch_targets(args: Args)
    ensures
        forall|f: String| args.template_folder == Some(f) ==> watch_list(args).contains((f@, FileChangeType::Template)),
        forall|f: String| args.markdown_folder == Some(f) ==> watch_list(args).contains((f@, FileChangeType::Markdown)),
        forall|f: String| args.template_variables == Some(f) ==> watch_list(args).contains((f@, FileChangeType::Config)),
        forall|f: String| args.static_resources == Some(f) ==> watch_list(args).contains((f@, FileChangeType::Static)),
        forall|i: int| 0 <= i < watch_list(args).len() ==> {
            let (folder, kind) = #[trigger] watch_list(args)[i];
            match kind {
                FileChangeType::Template => args.template_folder matches Some(f) && f@ == folder,
                FileChangeType::Markdown => args.markdown_folder matches Some(f) && f@ == folder,
                FileChangeType::Config => args.template_variables matches Some(f) && f@ == folder,
                FileChangeType::Static => args.static_resources matches Some(f) && f@ == folder,
            }
        },
{
    let l = watch_list(args);
    let t = match args.template_folder {
        Some(f) => seq![(f@, FileChangeType::Template)],
        None => Seq::empty(),
    };
    let m = match args.markdown_folder {
        Some(f) => seq![(f@, FileChangeType::Markdown)],
        None => Seq::empty(),
    };
    let c = match args.template_variables {
        Some(f) => seq![(f@, FileChangeType::Config)],
        None => Seq::empty(),
    };
    let st = match args.static_resources {
        Some(f) => seq![(f@, FileChangeType::Static)],
        None => Seq::empty(),
    };
    assert(l == t + m + c + st);
    if let Some(f) = args.template_folder {
        assert(l[0] == (f@, FileChangeType::Template));
    }
    if let Some(f) = args.markdown_folder {
        assert(l[t.len() as int] == (f@, FileChangeType::Markdown));
    }
    if let Some(f) = args.template_variables {
        assert(l[(t.len() + m.len()) as int] == (f@, FileChangeType::Config));
    }
    if let Some(f) = args.static_resources {
        assert(l[(t.len() + m.len() + c.len()) as int] == (f@, FileChangeType::Static));
    }
}

/// The watched folders as text.
pub open spec fn watch_view(targets: Seq<(String, FileChangeType)>) -> Seq<(Seq<char>, FileChangeType)> {
    targets.map_values(|t: (String, FileChangeType)| (t.0@, t.1))
}

fn add_target(targets: &mut Vec<(String, FileChangeType)>, folder: &Option<String>, kind: FileChangeType)
    ensures
        watch_view(final(targets)@) == watch_view(old(targets)@) + match folder {
            Some(f) => seq![(f@, kind)],
            None => Seq::empty(),
        },
{
    match folder {
        Some(f) => {
            let ghost before = watch_view(targets@);
            let ghost added = (f@, kind);
            targets.push((copy(f), kind));
            assert(watch_view(targets@) =~= before + seq![added]);
        },
        None => {
            assert(watch_view(targets@) =~= watch_view(targets@) + Seq::<(Seq<char>, FileChangeType)>::empty());
        },
    }
}

impl App {
    /// The application for the given arguments.
    pub fn new(args: Args) -> (res: App)
        ensures
            res.args == args,
    {
        App { args }
    }

    /// What this run does.
    pub fn plan(&self) -> (res: RunPlan)
        ensures
            plans(self.args, res),
    {
        match &self.args.command {
            Some(Commands::New { folder, name }) => {
                return RunPlan::CreateFile { folder: copy(folder), name: copy(name) };
            },
            Some(Commands::Init) => {
                return RunPlan::Scaffold;
            },
            None => {},
        }
        let template_folder = match &self.args.template_folder {
            Some(t) => copy(t),
            None => return RunPlan::MissingTemplateFolder,
        };
        let output_folder = match &self.args.output_folder {
            Some(o) => copy(o),
            None => return RunPlan::MissingOutputFolder,
        };
        let watch = self.args.watch || self.args.serve.is_some();
        RunPlan::Build { template_folder, output_folder, serve: self.args.serve, watch }
    }

    /// The folders to watch for changes, with the kind of file each holds.
    pub fn watch_targets(&self) -> (res: Vec<(String, FileChangeType)>)
        ensures
            watch_view(res@) == watch_list(self.args),
    {
        let mut targets: Vec<(String, FileChangeType)> = Vec::new();
        assert(watch_view(targets@) =~= Seq::<(Seq<char>, FileChangeType)>::empty());
        add_target(&mut targets, &self.args.template_folder, FileChangeType::Template);
        add_target(&mut targets, &self.args.markdown_folder, FileChangeType::Markdown);
        add_target(&mut targets, &self.args.template_variables, FileChangeType::Config);
        add_target(&mut targets, &self.args.static_resources, FileChangeType::Static);
        assert(watch_view(targets@) =~= watch_list(self.args));
        targets
    }
}

// ---------------------------------------------------------------------------
// New content files
// ---------------------------------------------------------------------------

/// The frontmatter of a new content file: its title is the file name with
/// dashes turned into spaces.
pub open spec fn new_file_text(name: Seq<char>, date: Seq<char>) -> Seq<char> {
    "---\ntitle: "@ + replaced(name, "-"@, " "@) + "\ndate: "@ + date + "\n---\n"@
}

/// The text of a new content file named `name`, dated `date`.
pub fn new_file_content(name: &str, date: &str) -> (res: String)
    ensures
        res@ == new_file_text(name@, date@),
{
    proof {
        reveal_strlit("-");
    }
    let title = replace_all(&chars_of(name), &chars_of("-"), &chars_of(" "));
    let mut out: Vec<char> = Vec::new();
    push_str(&mut out, "---\ntitle: ");
    crate::text::push_all(&mut out, &title);
    push_str(&mut out, "\ndate: ");
    push_str(&mut out, date);
    push_str(&mut out, "\n---\n");
    string_from_chars(out.as_slice())
}

/// The file name of a new content file: `name` with the `.md` extension.
pub fn new_file_name(name: &str) -> (res: String)
    ensures
        res@ == name@ + ".md"@,
{
    let mut out = chars_of(name);
    push_str(&mut out, ".md");
    string_from_chars(out.as_slice())
}

// ---------------------------------------------------------------------------
// A new site
// ---------------------------------------------------------------------------

/// The folders a new site starts with.
pub open spec fn scaffold_folders() -> Seq<Seq<char>> {
    seq!["templates"@, "static"@, "output"@, "markdown/posts"@]
}

/// The site settings a new site starts with.
pub open spec fn starter_config() -> Seq<char> {
    "website_name = \"My website\"\nwebsite_url = \"http://127.0.0.1:8080/\"\n"@
}

/// The home page template a new site starts with.
pub open spec fn starter_index() -> Seq<char> {
    "<!DOCTYPE html>\n<html>\n<body>\n<h1>My website</h1>\n</body>\n</html>\n"@
}

/// The post page template a new site starts with.
pub open spec fn starter_post() -> Seq<char> {
    "<!DOCTYPE html>\n<html>\n<body>\n<article></article>\n</body>\n</html>\n"@
}

/// The files a new site starts with, by path, dated `date`: the settings,
/// two templates and a first post.
pub open spec fn scaffold_files_spec(date: Seq<char>) -> Seq<(Seq<char>, Seq<char>)> {
    seq![
        ("config.toml"@, starter_config()),
        ("templates/index.template"@, starter_index()),
        ("templates/_posts.template"@, starter_post()),
        ("markdown/posts/hello-world.md"@, new_file_text("hello-world"@, date) + "Hello, world!\n"@),
    ]
}

/// The folders of a new site.
pub fn scaffold_folders_list() -> (res: Vec<String>)
    ensures
        res@.map_values(|f: String| f@) == scaffold_folders(),
{
    let res = vec![string_of("templates"), string_of("static"), string_of("output"), string_of("markdown/posts")];
    assert(res@.map_values(|f: String| f@) =~= scaffold_folders());
    res
}

/// The files of a new site dated `date`, by path; a file that already
/// exists is to be kept as it is.
pub fn scaffold_files(date: &str) -> (res: Vec<(String, String)>)
    ensures
        res@.map_values(|f: (String, String)| (f.0@, f.1@)) == scaffold_files_spec(date@),
{
    let mut post = chars_of(new_file_content("hello-world", date).as_str());
    push_str(&mut post, "Hello, world!\n");
    let res = vec![
        (string_of("config.toml"), string_of("website_name = \"My website\"\nwebsite_url = \"http://127.0.0.1:8080/\"\n")),
        (string_of("templates/index.template"), string_of("<!DOCTYPE html>\n<html>\n<body>\n<h1>My website</h1>\n</body>\n</html>\n")),
        (string_of("templates/_posts.template"), string_of("<!DOCTYPE html>\n<html>\n<body>\n<article></article>\n</body>\n</html>\n")),
        (string_of("markdown/posts/hello-world.md"), string_from_chars(post.as_slice())),
    ];
    assert(res@.map_values(|f: (String, String)| (f.0@, f.1@)) =~= scaffold_files_spec(date@));
    res
}

/// The files of a new site to write: those whose path does not exist yet
/// (`exists` says, file by file), in order.
pub fn files_to_write(files: Vec<(String, String)>, exists: &Vec<bool>) -> (res: Vec<(String, String)>)
    requires
        exists@.len() == files@.len(),
    ensures
        res@ == files@.zip_with(exists@).filter(|p: ((String, String), bool)| !p.1).map_values(
            |p: ((String, String), bool)| p.0,
        ),
{
    let ghost pairs = files@.zip_with(exists@);
    let ghost keep = |p: ((String, String), bool)| !p.1;
    let mut out: Vec<(String, String)> = Vec::new();
    let mut i: usize = 0;
    let n = files.len();
    for f in it: files
        invariant
            it.seq() == files@,
            n == files@.len(),
            i == it.index(),
            exists@.len() == files@.len(),
            pairs == files@.zip_with(exists@),
            keep == (|p: ((String, String), bool)| !p.1),
            out@ == pairs.take(i as int).filter(keep).map_values(|p: ((String, String), bool)| p.0),
    {
        proof {
            assert(pairs.take(i + 1) == pairs.take(i as int).push(pairs[i as int]));
            pairs.take(i as int).lemma_filter_push(pairs[i as int], keep);
        }
        assert(i < n);
        if !exists[i] {
            out.push(f);
        }
        proof {
            assert(out@ =~= pairs.take(i + 1).filter(keep).map_values(|p: ((String, String), bool)| p.0));
        }
        i = i + 1;
    }
    assert(pairs.take(i as int) =~= pairs);
    out
}

// ---------------------------------------------------------------------------
// Rebuilding after a change
// ---------------------------------------------------------------------------

/// A step of a rebuild.
pub enum RebuildStep {
    /// Copy the static resources again.
    CopyStatic,
    /// Rebuild after a markdown change.
    RebuildMarkdown,
    /// Compile the templates.
    CompileTemplates,
    /// Rebuild only what a template or configuration change touches.
    BuildIncremental,
    /// Rebuild the whole site; a failure ends the rebuild quietly.
    BuildFromScratch,
    /// Rebuild the whole site; a failure is fatal.
    BuildFromScratchOrFail,
    /// Wait for the processed files and report them.
    ProcessFiles,
    /// The rebuild is over.
    Finished,
    /// The rebuild failed fatally.
    Failed,
}

/// How a step ended.
pub enum StepOutcome {
    /// It succeeded with work to report.
    Done,
    /// It succeeded with nothing for an incremental build to do.
    NothingToDo,
    /// It failed.
    Error,
}

/// The first step of the rebuild after a change of a given kind.
pub open spec fn first_step_spec(change: FileChangeType) -> RebuildStep {
    match change {
        FileChangeType::Static => RebuildStep::CopyStatic,
        FileChangeType::Markdown => RebuildStep::RebuildMarkdown,
        FileChangeType::Template | FileChangeType::Config => RebuildStep::BuildIncremental,
    }
}

/// The step after `step` ended with `outcome`: a markdown change rebuilds
/// and then compiles templates, falling back to a full rebuild on failure;
/// a template or configuration change builds incrementally, falling back to
/// a full rebuild, which must then succeed.
pub open spec fn next_step_spec(step: RebuildStep, outcome: StepOutcome) -> RebuildStep {
    match step {
        RebuildStep::CopyStatic => RebuildStep::Finished,
        RebuildStep::RebuildMarkdown => match outcome {
            StepOutcome::Error => RebuildStep::BuildFromScratch,
            _ => RebuildStep::CompileTemplates,
        },
        RebuildStep::CompileTemplates => match outcome {
            StepOutcome::Error => RebuildStep::BuildFromScratch,
            _ => RebuildStep::ProcessFiles,
        },
        RebuildStep::BuildIncremental => match outcome {
            StepOutcome::Done => RebuildStep::ProcessFiles,
            _ => RebuildStep::BuildFromScratchOrFail,
        },
        RebuildStep::BuildFromScratch => match outcome {
            StepOutcome::Error => RebuildStep::Finished,
            _ => RebuildStep::ProcessFiles,
        },
        RebuildStep::BuildFromScratchOrFail => match outcome {
            StepOutcome::Error => RebuildStep::Failed,
            _ => RebuildStep::ProcessFiles,
        },
        RebuildStep::ProcessFiles => RebuildStep::Finished,
        RebuildStep::Finished => RebuildStep::Finished,
        RebuildStep::Failed => RebuildStep::Failed,
    }
}

/// The first step of the rebuild after a change.
pub fn first_rebuild_step(change: &FileChangeType) -> (res: RebuildStep)
    ensures
        res == first_step_spec(*change),
{
    match change {
        FileChangeType::Static => RebuildStep::CopyStatic,
        FileChangeType::Markdown => RebuildStep::RebuildMarkdown,
        FileChangeType::Template => RebuildStep::BuildIncremental,
        FileChangeType::Config => RebuildStep::BuildIncremental,
    }
}

/// The step after `step` ended with `outcome`.
pub fn next_rebuild_step(step: &RebuildStep, outcome: &StepOutcome) -> (res: RebuildStep)
    ensures
        res == next_step_spec(*step, *outcome),
{
    match step {
        RebuildStep::CopyStatic => RebuildStep::Finished,
        RebuildStep::RebuildMarkdown => match outcome {
            StepOutcome::Error => RebuildStep::BuildFromScratch,
            _ => RebuildStep::CompileTemplates,
        },
        RebuildStep::CompileTemplates => match outcome {
            StepOutcome::Error => RebuildStep::BuildFromScratch,
            _ => RebuildStep::ProcessFiles,
        },
        RebuildStep::BuildIncremental => match outcome {
            StepOutcome::Done => RebuildStep::ProcessFiles,
            _ => RebuildStep::BuildFromScratchOrFail,
        },
        RebuildStep::BuildFromScratch => match outcome {
            StepOutcome::Error => RebuildStep::Finished,
            _ => RebuildStep::ProcessFiles,
        },
        RebuildStep::BuildFromScratchOrFail => match outcome {
            StepOutcome::Error => RebuildStep::Failed,
            _ => RebuildStep::ProcessFiles,
        },
        RebuildStep::ProcessFiles => RebuildStep::Finished,
        RebuildStep::Finished => RebuildStep::Finished,
        RebuildStep::Failed => RebuildStep::Failed,
    }
}

/// The rebuild is over, well or badly.
pub open spec fn is_final(step: RebuildStep) -> bool {
    step is Finished || step is Failed
}

/// How many steps at most remain from `step`.
pub open spec fn steps_left(step: RebuildStep) -> nat {
    match step {
        RebuildStep::RebuildMarkdown => 4,
        RebuildStep::CompileTemplates => 3,
        RebuildStep::BuildIncremental => 3,
        RebuildStep::BuildFromScratch => 2,
        RebuildStep::BuildFromScratchOrFail => 2,
        RebuildStep::CopyStatic => 1,
        RebuildStep::ProcessFiles => 1,
        RebuildStep::Finished => 0,
        RebuildStep::Failed => 0,
    }
}

/// Every rebuild ends: each step that is not final is followed, whatever its
/// outcome, by a step with fewer steps left, and a final step stays final.
pub proof fn lemma_rebuild_ends(step: RebuildStep, outcome: StepOutcome)
    ensures
        !is_final(step) ==> steps_left(next_step_spec(step, outcome)) < steps_left(step),
        is_final(step) ==> next_step_spec(step, outcome) == step,
        is_final(step) <==> steps_left(step) == 0,
{
}

/// Only a template or configuration change can fail a rebuild: the steps a
/// static or markdown change goes through never lead to `Failed`.
pub proof fn lemma_markdown_rebuild_never_fails(
    change: FileChangeType,
    first: StepOutcome,
    second: StepOutcome,
    third: StepOutcome,
    fourth: StepOutcome,
)
    requires
        change is Static || change is Markdown,
    ensures
        !(next_step_spec(
            next_step_spec(next_step_spec(next_step_spec(first_step_spec(change), first), second), third),
            fourth,
        ) is Failed),
{
}

} // verus!
