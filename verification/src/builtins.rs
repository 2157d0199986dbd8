//! The functions that the platform brings along.
use crate::text::text_eq;
use crate::values::text_seq;
use vstd::prelude::*;
use vstd::string::*;

verus! {

/// A function that the platform brings along.
#[derive(Debug, Clone, Copy, PartialEq, Eq, Structural)]
pub enum BuiltinFunction {
    MathSum,
    TextEmpty,
    TextSpace,
    TextTrim,
    TextIsEmpty,
    TextIsNotEmpty,
    BoolNot,
    BoolToggle,
    BoolOr,
    ListCount,
    ListAppend,
    ListClear,
    ListLatest,
    ListIsEmpty,
    ListIsNotEmpty,
    RouterRoute,
    RouterGoTo,
    UlidGenerate,
    DocumentNew,
    ElementStripe,
    ElementContainer,
    ElementStack,
    ElementButton,
    ElementTextInput,
    ElementCheckbox,
    ElementLabel,
    ElementParagraph,
    ElementLink,
    TimerInterval,
    LogInfo,
    LogError,
    BuildSucceed,
    BuildFail,
    SceneNew,
    ThemeBackgroundColor,
    ThemeTextColor,
    ThemeAccentColor,
    FileReadText,
    FileWriteText,
    DirectoryEntries,
    StreamSkip,
    StreamTake,
    StreamDistinct,
    StreamPulses,
    StreamDebounce,
}

/// The path under which a function is called.
pub open spec fn builtin_path(function: BuiltinFunction) -> (Seq<char>, Seq<char>) {
    match function {
        BuiltinFunction::MathSum => ("Math"@, "sum"@),
        BuiltinFunction::TextEmpty => ("Text"@, "empty"@),
        BuiltinFunction::TextSpace => ("Text"@, "space"@),
        BuiltinFunction::TextTrim => ("Text"@, "trim"@),
        BuiltinFunction::TextIsEmpty => ("Text"@, "is_empty"@),
        BuiltinFunction::TextIsNotEmpty => ("Text"@, "is_not_empty"@),
        BuiltinFunction::BoolNot => ("Bool"@, "not"@),
        BuiltinFunction::BoolToggle => ("Bool"@, "toggle"@),
        BuiltinFunction::BoolOr => ("Bool"@, "or"@),
        BuiltinFunction::ListCount => ("List"@, "count"@),
        BuiltinFunction::ListAppend => ("List"@, "append"@),
        BuiltinFunction::ListClear => ("List"@, "clear"@),
        BuiltinFunction::ListLatest => ("List"@, "latest"@),
        BuiltinFunction::ListIsEmpty => ("List"@, "is_empty"@),
        BuiltinFunction::ListIsNotEmpty => ("List"@, "is_not_empty"@),
        BuiltinFunction::RouterRoute => ("Router"@, "route"@),
        BuiltinFunction::RouterGoTo => ("Router"@, "go_to"@),
        BuiltinFunction::UlidGenerate => ("Ulid"@, "generate"@),
        BuiltinFunction::DocumentNew => ("Document"@, "new"@),
        BuiltinFunction::ElementStripe => ("Element"@, "stripe"@),
        BuiltinFunction::ElementContainer => ("Element"@, "container"@),
        BuiltinFunction::ElementStack => ("Element"@, "stack"@),
        BuiltinFunction::ElementButton => ("Element"@, "button"@),
        BuiltinFunction::ElementTextInput => ("Element"@, "text_input"@),
        BuiltinFunction::ElementCheckbox => ("Element"@, "checkbox"@),
        BuiltinFunction::ElementLabel => ("Element"@, "label"@),
        BuiltinFunction::ElementParagraph => ("Element"@, "paragraph"@),
        BuiltinFunction::ElementLink => ("Element"@, "link"@),
        BuiltinFunction::TimerInterval => ("Timer"@, "interval"@),
        BuiltinFunction::LogInfo => ("Log"@, "info"@),
        BuiltinFunction::LogError => ("Log"@, "error"@),
        BuiltinFunction::BuildSucceed => ("Build"@, "succeed"@),
        BuiltinFunction::BuildFail => ("Build"@, "fail"@),
        BuiltinFunction::SceneNew => ("Scene"@, "new"@),
        BuiltinFunction::ThemeBackgroundColor => ("Theme"@, "background_color"@),
        BuiltinFunction::ThemeTextColor => ("Theme"@, "text_color"@),
        BuiltinFunction::ThemeAccentColor => ("Theme"@, "accent_color"@),
        BuiltinFunction::FileReadText => ("File"@, "read_text"@),
        BuiltinFunction::FileWriteText => ("File"@, "write_text"@),
        BuiltinFunction::DirectoryEntries => ("Directory"@, "entries"@),
        BuiltinFunction::StreamSkip => ("Stream"@, "skip"@),
        BuiltinFunction::StreamTake => ("Stream"@, "take"@),
        BuiltinFunction::StreamDistinct => ("Stream"@, "distinct"@),
        BuiltinFunction::StreamPulses => ("Stream"@, "pulses"@),
        BuiltinFunction::StreamDebounce => ("Stream"@, "debounce"@),
    }
}

/// Whether a path is that of the given function.
pub open spec fn is_builtin(path: Seq<Seq<char>>, function: BuiltinFunction) -> bool {
    path.len() == 2 && (path[0], path[1]) == builtin_path(function)
}

/// A path as it is written.
pub open spec fn joined(path: Seq<Seq<char>>, separator: Seq<char>) -> Seq<char>
    decreases path.len(),
{
    if path.len() == 0 {
        Seq::empty()
    } else if path.len() == 1 {
        path[0]
    } else {
        joined(path.drop_last(), separator) + separator + path.last()
    }
}

/// The parts of a path, joined by a separator.
pub fn join_texts(path: &Vec<String>, separator: &str) -> (r: String)
    ensures
        r@ == joined(text_seq(path@), separator@),
{
    let ghost all = text_seq(path@);
    if path.len() == 0 {
        return String::new();
    }
    let mut out = path[0].clone();
    let mut i: usize = 1;
    proof {
        assert(all.take(1).len() == 1);
        assert(all.take(1)[0] == all[0]);
    }
    while i < path.len()
        invariant
            1 <= i <= path@.len(),
            all == text_seq(path@),
            out@ == joined(all.take(i as int), separator@),
        decreases path@.len() - i,
    {
        out.append(separator);
        out.append(path[i].as_str());
        proof {
            assert(all.take(i + 1).drop_last() =~= all.take(i as int));
            assert(all.take(i + 1).last() == all[i as int]);
        }
        i = i + 1;
    }
    proof {
        assert(all.take(i as int) =~= all);
    }
    out
}

/// The message about a path that names no function.
pub open spec fn unknown_function(path: Seq<Seq<char>>) -> Seq<char> {
    "Unknown function '"@ + joined(path, "/"@) + "(..)' in static context"@
}

fn builtin_in_group(group: &str, name: &str) -> (r: Option<BuiltinFunction>)
    ensures
        match r {
            Some(f) => (group@, name@) == builtin_path(f),
            None => forall|f: BuiltinFunction| (group@, name@) != #[trigger] builtin_path(f),
        },
{
    if text_eq(group, "Math") {
        if text_eq(name, "sum") {
            return Some(BuiltinFunction::MathSum);
        }
    }
    if text_eq(group, "Text") {
        if text_eq(name, "empty") {
            return Some(BuiltinFunction::TextEmpty);
        }
        if text_eq(name, "space") {
            return Some(BuiltinFunction::TextSpace);
        }
        if text_eq(name, "trim") {
            return Some(BuiltinFunction::TextTrim);
        }
        if text_eq(name, "is_empty") {
            return Some(BuiltinFunction::TextIsEmpty);
        }
        if text_eq(name, "is_not_empty") {
            return Some(BuiltinFunction::TextIsNotEmpty);
        }
    }
    if text_eq(group, "Bool") {
        if text_eq(name, "not") {
            return Some(BuiltinFunction::BoolNot);
        }
        if text_eq(name, "toggle") {
            return Some(BuiltinFunction::BoolToggle);
        }
        if text_eq(name, "or") {
            return Some(BuiltinFunction::BoolOr);
        }
    }
    if text_eq(group, "List") {
        if text_eq(name, "count") {
            return Some(BuiltinFunction::ListCount);
        }
        if text_eq(name, "append") {
            return Some(BuiltinFunction::ListAppend);
        }
        if text_eq(name, "clear") {
            return Some(BuiltinFunction::ListClear);
        }
        if text_eq(name, "latest") {
            return Some(BuiltinFunction::ListLatest);
        }
        if text_eq(name, "is_empty") {
            return Some(BuiltinFunction::ListIsEmpty);
        }
        if text_eq(name, "is_not_empty") {
            return Some(BuiltinFunction::ListIsNotEmpty);
        }
    }
    if text_eq(group, "Router") {
        if text_eq(name, "route") {
            return Some(BuiltinFunction::RouterRoute);
        }
        if text_eq(name, "go_to") {
            return Some(BuiltinFunction::RouterGoTo);
        }
    }
    if text_eq(group, "Ulid") {
        if text_eq(name, "generate") {
            return Some(BuiltinFunction::UlidGenerate);
        }
    }
    if text_eq(group, "Document") {
        if text_eq(name, "new") {
            return Some(BuiltinFunction::DocumentNew);
        }
    }
    if text_eq(group, "Element") {
        if text_eq(name, "stripe") {
            return Some(BuiltinFunction::ElementStripe);
        }
        if text_eq(name, "container") {
            return Some(BuiltinFunction::ElementContainer);
        }
        if text_eq(name, "stack") {
            return Some(BuiltinFunction::ElementStack);
        }
        if text_eq(name, "button") {
            return Some(BuiltinFunction::ElementButton);
        }
        if text_eq(name, "text_input") {
            return Some(BuiltinFunction::ElementTextInput);
        }
        if text_eq(name, "checkbox") {
            return Some(BuiltinFunction::ElementCheckbox);
        }
        if text_eq(name, "label") {
            return Some(BuiltinFunction::ElementLabel);
        }
        if text_eq(name, "paragraph") {
            return Some(BuiltinFunction::ElementParagraph);
        }
        if text_eq(name, "link") {
            return Some(BuiltinFunction::ElementLink);
        }
    }
    if text_eq(group, "Timer") {
        if text_eq(name, "interval") {
            return Some(BuiltinFunction::TimerInterval);
        }
    }
    if text_eq(group, "Log") {
        if text_eq(name, "info") {
            return Some(BuiltinFunction::LogInfo);
        }
        if text_eq(name, "error") {
            return Some(BuiltinFunction::LogError);
        }
    }
    if text_eq(group, "Build") {
        if text_eq(name, "succeed") {
            return Some(BuiltinFunction::BuildSucceed);
        }
        if text_eq(name, "fail") {
            return Some(BuiltinFunction::BuildFail);
        }
    }
    if text_eq(group, "Scene") {
        if text_eq(name, "new") {
            return Some(BuiltinFunction::SceneNew);
        }
    }
    if text_eq(group, "Theme") {
        if text_eq(name, "background_color") {
            return Some(BuiltinFunction::ThemeBackgroundColor);
        }
        if text_eq(name, "text_color") {
            return Some(BuiltinFunction::ThemeTextColor);
        }
        if text_eq(name, "accent_color") {
            return Some(BuiltinFunction::ThemeAccentColor);
        }
    }
    if text_eq(group, "File") {
        if text_eq(name, "read_text") {
            return Some(BuiltinFunction::FileReadText);
        }
        if text_eq(name, "write_text") {
            return Some(BuiltinFunction::FileWriteText);
        }
    }
    if text_eq(group, "Directory") {
        if text_eq(name, "entries") {
            return Some(BuiltinFunction::DirectoryEntries);
        }
    }
    if text_eq(group, "Stream") {
        if text_eq(name, "skip") {
            return Some(BuiltinFunction::StreamSkip);
        }
        if text_eq(name, "take") {
            return Some(BuiltinFunction::StreamTake);
        }
        if text_eq(name, "distinct") {
            return Some(BuiltinFunction::StreamDistinct);
        }
        if text_eq(name, "pulses") {
            return Some(BuiltinFunction::StreamPulses);
        }
        if text_eq(name, "debounce") {
            return Some(BuiltinFunction::StreamDebounce);
        }
    }
    None
}

/// The function that a path names.
pub fn static_function_call_path_to_definition(path: &Vec<String>) -> (r: Result<
    BuiltinFunction,
    String,
>)
    ensures
        match r {
            Ok(f) => is_builtin(text_seq(path@), f),
            Err(e) => {
                &&& forall|f: BuiltinFunction| !(#[trigger] is_builtin(text_seq(path@), f))
                &&& e@ == unknown_function(text_seq(path@))
            },
        },
{
    if path.len() == 2 {
        proof {
            assert(text_seq(path@)[0] == path@[0]@);
            assert(text_seq(path@)[1] == path@[1]@);
        }
        if let Some(f) = builtin_in_group(path[0].as_str(), path[1].as_str()) {
            return Ok(f);
        }
    }
    let mut message = "Unknown function '".to_owned();
    message.append(join_texts(path, "/").as_str());
    message.append("(..)' in static context");
    Err(message)
}

spec fn path_mark(function: BuiltinFunction) -> (char, nat, char) {
    match function {
        BuiltinFunction::MathSum => ('a', 3, 'm'),
        BuiltinFunction::TextEmpty => ('e', 5, 'y'),
        BuiltinFunction::TextSpace => ('e', 5, 'e'),
        BuiltinFunction::TextTrim => ('e', 4, 'm'),
        BuiltinFunction::TextIsEmpty => ('e', 8, 'y'),
        BuiltinFunction::TextIsNotEmpty => ('e', 12, 'y'),
        BuiltinFunction::BoolNot => ('o', 3, 't'),
        BuiltinFunction::BoolToggle => ('o', 6, 'e'),
        BuiltinFunction::BoolOr => ('o', 2, 'r'),
        BuiltinFunction::ListCount => ('i', 5, 't'),
        BuiltinFunction::ListAppend => ('i', 6, 'd'),
        BuiltinFunction::ListClear => ('i', 5, 'r'),
        BuiltinFunction::ListLatest => ('i', 6, 't'),
        BuiltinFunction::ListIsEmpty => ('i', 8, 'y'),
        BuiltinFunction::ListIsNotEmpty => ('i', 12, 'y'),
        BuiltinFunction::RouterRoute => ('o', 5, 'e'),
        BuiltinFunction::RouterGoTo => ('o', 5, 'o'),
        BuiltinFunction::UlidGenerate => ('l', 8, 'e'),
        BuiltinFunction::DocumentNew => ('o', 3, 'w'),
        BuiltinFunction::ElementStripe => ('l', 6, 'e'),
        BuiltinFunction::ElementContainer => ('l', 9, 'r'),
        BuiltinFunction::ElementStack => ('l', 5, 'k'),
        BuiltinFunction::ElementButton => ('l', 6, 'n'),
        BuiltinFunction::ElementTextInput => ('l', 10, 't'),
        BuiltinFunction::ElementCheckbox => ('l', 8, 'x'),
        BuiltinFunction::ElementLabel => ('l', 5, 'l'),
        BuiltinFunction::ElementParagraph => ('l', 9, 'h'),
        BuiltinFunction::ElementLink => ('l', 4, 'k'),
        BuiltinFunction::TimerInterval => ('i', 8, 'l'),
        BuiltinFunction::LogInfo => ('o', 4, 'o'),
        BuiltinFunction::LogError => ('o', 5, 'r'),
        BuiltinFunction::BuildSucceed => ('u', 7, 'd'),
        BuiltinFunction::BuildFail => ('u', 4, 'l'),
        BuiltinFunction::SceneNew => ('c', 3, 'w'),
        BuiltinFunction::ThemeBackgroundColor => ('h', 16, 'r'),
        BuiltinFunction::ThemeTextColor => ('h', 10, 'r'),
        BuiltinFunction::ThemeAccentColor => ('h', 12, 'r'),
        BuiltinFunction::FileReadText => ('i', 9, 't'),
        BuiltinFunction::FileWriteText => ('i', 10, 't'),
        BuiltinFunction::DirectoryEntries => ('i', 7, 's'),
        BuiltinFunction::StreamSkip => ('t', 4, 'p'),
        BuiltinFunction::StreamTake => ('t', 4, 'e'),
        BuiltinFunction::StreamDistinct => ('t', 8, 't'),
        BuiltinFunction::StreamPulses => ('t', 6, 's'),
        BuiltinFunction::StreamDebounce => ('t', 8, 'e'),
    }
}

proof fn lemma_path_mark(function: BuiltinFunction)
    ensures
        ({
            let path = builtin_path(function);
            (path.0[1], path.1.len(), path.1.last()) == path_mark(function)
        }),
{
    match function {
        BuiltinFunction::MathSum => {
            reveal_strlit("Math");
            reveal_strlit("sum");
        },
        BuiltinFunction::TextEmpty => {
            reveal_strlit("Text");
            reveal_strlit("empty");
        },
        BuiltinFunction::TextSpace => {
            reveal_strlit("Text");
            reveal_strlit("space");
        },
        BuiltinFunction::TextTrim => {
            reveal_strlit("Text");
            reveal_strlit("trim");
        },
        BuiltinFunction::TextIsEmpty => {
            reveal_strlit("Text");
            reveal_strlit("is_empty");
        },
        BuiltinFunction::TextIsNotEmpty => {
            reveal_strlit("Text");
            reveal_strlit("is_not_empty");
        },
        BuiltinFunction::BoolNot => {
            reveal_strlit("Bool");
            reveal_strlit("not");
        },
        BuiltinFunction::BoolToggle => {
            reveal_strlit("Bool");
            reveal_strlit("toggle");
        },
        BuiltinFunction::BoolOr => {
            reveal_strlit("Bool");
            reveal_strlit("or");
        },
        BuiltinFunction::ListCount => {
            reveal_strlit("List");
            reveal_strlit("count");
        },
        BuiltinFunction::ListAppend => {
            reveal_strlit("List");
            reveal_strlit("append");
        },
        BuiltinFunction::ListClear => {
            reveal_strlit("List");
            reveal_strlit("clear");
        },
        BuiltinFunction::ListLatest => {
            reveal_strlit("List");
            reveal_strlit("latest");
        },
        BuiltinFunction::ListIsEmpty => {
            reveal_strlit("List");
            reveal_strlit("is_empty");
        },
        BuiltinFunction::ListIsNotEmpty => {
            reveal_strlit("List");
            reveal_strlit("is_not_empty");
        },
        BuiltinFunction::RouterRoute => {
            reveal_strlit("Router");
            reveal_strlit("route");
        },
        BuiltinFunction::RouterGoTo => {
            reveal_strlit("Router");
            reveal_strlit("go_to");
        },
        BuiltinFunction::UlidGenerate => {
            reveal_strlit("Ulid");
            reveal_strlit("generate");
        },
        BuiltinFunction::DocumentNew => {
            reveal_strlit("Document");
            reveal_strlit("new");
        },
        BuiltinFunction::ElementStripe => {
            reveal_strlit("Element");
            reveal_strlit("stripe");
        },
        BuiltinFunction::ElementContainer => {
            reveal_strlit("Element");
            reveal_strlit("container");
        },
        BuiltinFunction::ElementStack => {
            reveal_strlit("Element");
            reveal_strlit("stack");
        },
        BuiltinFunction::ElementButton => {
            reveal_strlit("Element");
            reveal_strlit("button");
        },
        BuiltinFunction::ElementTextInput => {
            reveal_strlit("Element");
            reveal_strlit("text_input");
        },
        BuiltinFunction::ElementCheckbox => {
            reveal_strlit("Element");
            reveal_strlit("checkbox");
        },
        BuiltinFunction::ElementLabel => {
            reveal_strlit("Element");
            reveal_strlit("label");
        },
        BuiltinFunction::ElementParagraph => {
            reveal_strlit("Element");
            reveal_strlit("paragraph");
        },
        BuiltinFunction::ElementLink => {
            reveal_strlit("Element");
            reveal_strlit("link");
        },
        BuiltinFunction::TimerInterval => {
            reveal_strlit("Timer");
            reveal_strlit("interval");
        },
        BuiltinFunction::LogInfo => {
            reveal_strlit("Log");
            reveal_strlit("info");
        },
        BuiltinFunction::LogError => {
            reveal_strlit("Log");
            reveal_strlit("error");
        },
        BuiltinFunction::BuildSucceed => {
            reveal_strlit("Build");
            reveal_strlit("succeed");
        },
        BuiltinFunction::BuildFail => {
            reveal_strlit("Build");
            reveal_strlit("fail");
        },
        BuiltinFunction::SceneNew => {
            reveal_strlit("Scene");
            reveal_strlit("new");
        },
        BuiltinFunction::ThemeBackgroundColor => {
            reveal_strlit("Theme");
            reveal_strlit("background_color");
        },
        BuiltinFunction::ThemeTextColor => {
            reveal_strlit("Theme");
            reveal_strlit("text_color");
        },
        BuiltinFunction::ThemeAccentColor => {
            reveal_strlit("Theme");
            reveal_strlit("accent_color");
        },
        BuiltinFunction::FileReadText => {
            reveal_strlit("File");
            reveal_strlit("read_text");
        },
        BuiltinFunction::FileWriteText => {
            reveal_strlit("File");
            reveal_strlit("write_text");
        },
        BuiltinFunction::DirectoryEntries => {
            reveal_strlit("Directory");
            reveal_strlit("entries");
        },
        BuiltinFunction::StreamSkip => {
            reveal_strlit("Stream");
            reveal_strlit("skip");
        },
        BuiltinFunction::StreamTake => {
            reveal_strlit("Stream");
            reveal_strlit("take");
        },
        BuiltinFunction::StreamDistinct => {
            reveal_strlit("Stream");
            reveal_strlit("distinct");
        },
        BuiltinFunction::StreamPulses => {
            reveal_strlit("Stream");
            reveal_strlit("pulses");
        },
        BuiltinFunction::StreamDebounce => {
            reveal_strlit("Stream");
            reveal_strlit("debounce");
        },
    }
}

/// A path names one function at most.
pub proof fn lemma_path_names_one_function(
    path: Seq<Seq<char>>,
    f: BuiltinFunction,
    g: BuiltinFunction,
)
    requires
        is_builtin(path, f),
        is_builtin(path, g),
    ensures
        f == g,
{
    lemma_path_mark(f);
    lemma_path_mark(g);
}

} // verus!
