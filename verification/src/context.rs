//! What a new conversation starts with.
use crate::paths::{ends_in, file_name};
use crate::patterns::{detect_secret, secret_in};
use crate::text::{begins_with, cat3, cat4};
use crate::types::{AgentMessage, MessageView};
use vstd::prelude::*;

verus! {

/// Instructions that a project gives, and the file they come from.
#[derive(Debug, Clone, PartialEq, Eq)]
pub struct ProjectInstructions {
    pub source: String,
    pub content: String,
}

/// The text of a file; nothing where it does not exist, and the error where it could not be read.
pub type FileText = Result<Option<String>, String>;

/// What the model is told of its tools.
pub open spec fn safety_prompt() -> Seq<char> {
    "Filesystem tools are workspace-contained. The bash tool is shallow: commands start in the workspace but can access paths outside it. Request only commands appropriate for the active permission policy."@
}

/// The instructions in a file of a name, given the kind of secret in its text; nothing where the
/// next file is to be tried.
pub open spec fn instructions_in(
    name: Seq<char>,
    file: FileText,
    secret: Option<Seq<char>>,
) -> Result<Option<(Seq<char>, Seq<char>)>, Seq<char>> {
    match file {
        Err(error) => Err(name + " could not be read: "@ + error@),
        Ok(None) => Ok(None),
        Ok(Some(text)) => match secret {
            Some(kind) => Err(name + " was not loaded because it resembles a "@ + kind + "."@),
            None => Ok(Some((name, text@))),
        },
    }
}

/// The kind of secret in the text of a file.
pub open spec fn file_secret(file: FileText) -> Option<Seq<char>> {
    match file {
        Ok(Some(text)) => secret_in(text@),
        _ => None,
    }
}

/// The instructions of a project: those of `RONIN.md`, and where there is none those of
/// `AGENTS.md`.
pub open spec fn project_instructions(ronin: FileText, agents: FileText) -> Result<
    Option<(Seq<char>, Seq<char>)>,
    Seq<char>,
> {
    match instructions_in("RONIN.md"@, ronin, file_secret(ronin)) {
        Ok(None) => instructions_in("AGENTS.md"@, agents, file_secret(agents)),
        other => other,
    }
}

/// The value of a result of instructions.
pub open spec fn instructions_outcome(r: Result<Option<ProjectInstructions>, String>) -> Result<
    Option<(Seq<char>, Seq<char>)>,
    Seq<char>,
> {
    match r {
        Ok(Some(i)) => Ok(Some((i.source@, i.content@))),
        Ok(None) => Ok(None),
        Err(e) => Err(e@),
    }
}

/// The instructions in a file of a name, given the kind of secret in its text.
pub fn read_instructions(name: &str, file: FileText, secret: Option<&str>) -> (r: Result<
    Option<ProjectInstructions>,
    String,
>)
    ensures
        instructions_outcome(r) == instructions_in(name@, file, secret.deep_view()),
{
    match file {
        Err(error) => Err(cat3(name, " could not be read: ", error.as_str())),
        Ok(None) => Ok(None),
        Ok(Some(content)) => match secret {
            Some(kind) => Err(cat4(name, " was not loaded because it resembles a ", kind, ".")),
            None => Ok(Some(ProjectInstructions { source: name.to_owned(), content })),
        },
    }
}

fn secret_in_file(file: &FileText) -> (r: Option<&'static str>)
    ensures
        r.deep_view() == file_secret(*file),
{
    match file {
        Ok(Some(text)) => detect_secret(text.as_str()),
        _ => None,
    }
}

/// The instructions of a project, from the texts of `RONIN.md` and `AGENTS.md`.
pub fn load_project_instructions(ronin: FileText, agents: FileText) -> (r: Result<
    Option<ProjectInstructions>,
    String,
>)
    ensures
        instructions_outcome(r) == project_instructions(ronin, agents),
{
    let secret = secret_in_file(&ronin);
    match read_instructions("RONIN.md", ronin, secret) {
        Ok(None) => {
            let secret = secret_in_file(&agents);
            read_instructions("AGENTS.md", agents, secret)
        },
        other => other,
    }
}

/// The messages that a new conversation starts with, and a warning where the instructions of the
/// project were left out.
pub open spec fn first_messages(
    instructions: Result<Option<(Seq<char>, Seq<char>)>, Seq<char>>,
) -> (Seq<MessageView>, Option<Seq<char>>) {
    let safety = MessageView::System(safety_prompt());
    match instructions {
        Ok(Some((source, content))) => (
            seq![
                safety,
                MessageView::System(
                    "Project instructions from "@ + source + ":\n\n"@ + content,
                ),
            ],
            None,
        ),
        Ok(None) => (seq![safety], None),
        Err(warning) => (seq![safety], Some(warning)),
    }
}

/// The messages that a new conversation starts with, and a warning where the instructions of the
/// project were left out.
pub fn initial_messages(instructions: Result<Option<ProjectInstructions>, String>) -> (r: (
    Vec<AgentMessage>,
    Option<String>,
))
    ensures
        (r.0.deep_view(), r.1.deep_view()) == first_messages(instructions_outcome(instructions)),
{
    let mut messages: Vec<AgentMessage> = Vec::new();
    messages.push(
        AgentMessage::system(
            "Filesystem tools are workspace-contained. The bash tool is shallow: commands start in the workspace but can access paths outside it. Request only commands appropriate for the active permission policy.".to_owned(),
        ),
    );
    let ghost expected = first_messages(instructions_outcome(instructions)).0;
    match instructions {
        Ok(Some(value)) => {
            messages.push(
                AgentMessage::system(
                    cat4(
                        "Project instructions from ",
                        value.source.as_str(),
                        ":\n\n",
                        value.content.as_str(),
                    ),
                ),
            );
            assert(messages.deep_view() =~= expected);
            (messages, None)
        },
        Ok(None) => {
            assert(messages.deep_view() =~= expected);
            (messages, None)
        },
        Err(warning) => {
            assert(messages.deep_view() =~= expected);
            (messages, Some(warning))
        },
    }
}

/// The name of the project in a directory that ends in a name, or in none.
pub open spec fn project_name(name: Option<Seq<char>>) -> Seq<char> {
    match name {
        Some(name) => name,
        None => "project"@,
    }
}

/// What a new `RONIN.md` holds in a directory that ends in a name, or in none.
pub open spec fn first_content(name: Option<Seq<char>>) -> Seq<char> {
    "# "@ + project_name(name)
        + "\n\n## Project instructions\n\n- Describe the architecture, commands, conventions, and safety constraints here.\n"@
}

/// What a new `RONIN.md` holds in a directory that ends in a name, or in none, where `present` says
/// whether there is one.
pub fn new_content(name: Option<String>, present: bool, force: bool) -> (r: Result<String, String>)
    ensures
        match r {
            Ok(content) => (!present || force) && content@ == first_content(name.deep_view()),
            Err(e) => present && !force && e@
                == "RONIN.md already exists. Use /init --force to replace it."@,
        },
{
    if present && !force {
        return Err("RONIN.md already exists. Use /init --force to replace it.".to_owned());
    }
    let shown = match name {
        Some(name) => name,
        None => "project".to_owned(),
    };
    Ok(
        cat3(
            "# ",
            shown.as_str(),
            "\n\n## Project instructions\n\n- Describe the architecture, commands, conventions, and safety constraints here.\n",
        ),
    )
}

/// What a new `RONIN.md` holds in a directory, where `present` says whether there is one.
pub fn init_content(cwd: &str, present: bool, force: bool) -> (r: Result<String, String>)
    ensures
        match r {
            Ok(content) => (!present || force) && exists|name: Option<Seq<char>>|
                ends_in(cwd@, name) && content@ == #[trigger] first_content(name),
            Err(e) => present && !force && e@
                == "RONIN.md already exists. Use /init --force to replace it."@,
        },
{
    let name = file_name(cwd);
    let ghost given = name.deep_view();
    let r = new_content(name, present, force);
    assert(r matches Ok(content) ==> content@ == first_content(given));
    r
}

/// Every conversation starts with what the model is told of its tools.
pub proof fn conversations_start_with_the_safety_prompt(
    instructions: Result<Option<(Seq<char>, Seq<char>)>, Seq<char>>,
)
    ensures
        first_messages(instructions).0.len() > 0,
        first_messages(instructions).0[0] == MessageView::System(safety_prompt()),
{
}

/// The instructions of `RONIN.md` come before those of `AGENTS.md`, which are not looked at.
pub proof fn ronin_instructions_come_first(ronin: FileText, agents: FileText, other: FileText)
    requires
        ronin matches Ok(Some(_)),
    ensures
        project_instructions(ronin, agents) == project_instructions(ronin, other),
{
}

/// The instructions of a project are what its file says, word for word and under the name of the
/// file: that of this program where there is one, else the one for any agent. A file that looks
/// like a secret or cannot be read gives none, and is warned of.
pub proof fn instructions_are_what_the_file_says(ronin: FileText, agents: FileText)
    ensures
        ronin matches Ok(Some(text)) ==> (secret_in(text@) is None ==> project_instructions(
            ronin,
            agents,
        ) == Ok::<Option<(Seq<char>, Seq<char>)>, Seq<char>>(Some(("RONIN.md"@, text@)))),
        ronin matches Ok(Some(text)) ==> (secret_in(text@) is Some ==> project_instructions(
            ronin,
            agents,
        ) is Err),
        ronin is Err ==> project_instructions(ronin, agents) is Err,
        ronin matches Ok(None) ==> (agents matches Ok(Some(text)) ==> (secret_in(text@) is None
            ==> project_instructions(ronin, agents) == Ok::<
            Option<(Seq<char>, Seq<char>)>,
            Seq<char>,
        >(Some(("AGENTS.md"@, text@))))),
        ronin matches Ok(None) ==> (agents matches Ok(None) ==> project_instructions(ronin, agents)
            == Ok::<Option<(Seq<char>, Seq<char>)>, Seq<char>>(None)),
{
}

/// The model is told of the tools first and then what the project instructs, word for word; where
/// there is a warning instead, it is handed on.
pub proof fn conversations_start_with_the_instructions(source: Seq<char>, content: Seq<char>)
    ensures
        ({
            let (messages, warning) = first_messages(Ok(Some((source, content))));
            &&& messages.len() == 2 && warning is None
            &&& messages[1] == MessageView::System(
                "Project instructions from "@ + source + ":\n\n"@ + content,
            )
        }),
        first_messages(Ok(None)).0.len() == 1 && first_messages(Ok(None)).1 is None,
        first_messages(Err(content)).0.len() == 1 && first_messages(Err(content)).1 == Some(content),
{
}

/// New instructions are headed by the name of the directory, or by a name for any project where it
/// has none.
pub proof fn new_instructions_name_the_project(name: Seq<char>)
    ensures
        begins_with(first_content(Some(name)), "# "@ + name),
        begins_with(first_content(None), "# project"@),
{
    let a = first_content(Some(name));
    let b = first_content(None);
    assert(a.subrange(0, ("# "@ + name).len() as int) =~= "# "@ + name);
    reveal_strlit("# project");
    reveal_strlit("# ");
    reveal_strlit("project");
    assert("# "@ + "project"@ =~= "# project"@);
    assert(b.subrange(0, "# project"@.len() as int) =~= "# project"@);
}

} // verus!
