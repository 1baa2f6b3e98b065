//! What a run is asked to do: which catalog, which capture, which output.

use crate::text::same_text;
use vstd::prelude::*;

verus! {

/// What is made of the decoded events.
#[derive(Clone, Copy, Debug, PartialEq, Eq, Structural)]
pub enum Processing {
    /// The events of one endpoint, in time order.
    Table,
    /// The frequency summary.
    Summary,
    /// One table row for each event.
    Row,
}

/// The settings of one run.
#[derive(Debug)]
pub struct Config {
    /// The file that holds the event catalog.
    pub xml: String,
    /// The file that holds the capture.
    pub filename: String,
    pub output: Processing,
    /// The name of the one event to decode, or `all`.
    pub filter: String,
    /// The endpoint reference to show, or `all`.
    pub ueref: String,
}

/// The settings of a run in plain values.
pub struct ConfigView {
    pub xml: Seq<char>,
    pub filename: Seq<char>,
    pub output: Processing,
    pub filter: Seq<char>,
    pub ueref: Seq<char>,
}

impl View for Config {
    type V = ConfigView;

    open spec fn view(&self) -> ConfigView {
        ConfigView {
            xml: self.xml@,
            filename: self.filename@,
            output: self.output,
            filter: self.filter@,
            ueref: self.ueref@,
        }
    }
}

/// The output that a word selects.
pub open spec fn processing_named(word: Seq<char>) -> Option<Processing> {
    if word == "table"@ {
        Some(Processing::Table)
    } else if word == "summary"@ {
        Some(Processing::Summary)
    } else if word == "row"@ {
        Some(Processing::Row)
    } else {
        None
    }
}

/// The argument at position `at`, or `all` where the command line ends
/// before it.
pub open spec fn argument_or_all(args: Seq<Seq<char>>, at: int) -> Seq<char> {
    if at < args.len() {
        args[at]
    } else {
        "all"@
    }
}

/// The settings that a command line asks for. The first argument is the
/// program's own name; then come the catalog file, the capture file and the
/// output, which are required, and the event filter and the endpoint
/// reference, which default to `all`. Further arguments are not read.
pub open spec fn config_of(args: Seq<Seq<char>>) -> Result<ConfigView, Seq<char>> {
    if args.len() < 2 {
        Err("did not get xml file"@)
    } else if args.len() < 3 {
        Err("did not get a file to parse"@)
    } else if args.len() < 4 || processing_named(args[3]) is None {
        Err("did not specify result output, options 'table' and 'summary'"@)
    } else {
        Ok(
            ConfigView {
                xml: args[1],
                filename: args[2],
                output: processing_named(args[3])->Some_0,
                filter: argument_or_all(args, 4),
                ueref: argument_or_all(args, 5),
            },
        )
    }
}

/// The texts of a command line.
pub open spec fn arguments_view(args: Seq<String>) -> Seq<Seq<char>> {
    args.map_values(|arg: String| arg@)
}

/// The output that a word selects.
pub fn processing_of(word: &str) -> (output: Option<Processing>)
    ensures
        output == processing_named(word@),
{
    proof {
        reveal_strlit("table");
        reveal_strlit("summary");
        reveal_strlit("row");
    }
    if same_text(word, "table") {
        Some(Processing::Table)
    } else if same_text(word, "summary") {
        Some(Processing::Summary)
    } else if same_text(word, "row") {
        Some(Processing::Row)
    } else {
        None
    }
}

impl Config {
    /// Reads the settings from a command line.
    pub fn new(args: Vec<String>) -> (result: Result<Config, &'static str>)
        ensures
            match config_of(arguments_view(args@)) {
                Ok(expected) => result matches Ok(config) && config@ == expected,
                Err(message) => result matches Err(told) && told@ == message,
            },
    {
        if args.len() < 2 {
            return Err("did not get xml file");
        }
        if args.len() < 3 {
            return Err("did not get a file to parse");
        }
        if args.len() < 4 {
            return Err("did not specify result output, options 'table' and 'summary'");
        }
        let output = match processing_of(args[3].as_str()) {
            Some(output) => output,
            None => {
                return Err("did not specify result output, options 'table' and 'summary'");
            },
        };
        let filter = if args.len() > 4 {
            args[4].clone()
        } else {
            "all".to_owned()
        };
        let ueref = if args.len() > 5 {
            args[5].clone()
        } else {
            "all".to_owned()
        };
        Ok(Config { xml: args[1].clone(), filename: args[2].clone(), output, filter, ueref })
    }
}

} // verus!
