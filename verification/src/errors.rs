//! The closed error-code vocabulary, and the machine-readable body that
//! carries it.
use crate::cli::Format;
use crate::text::{chars_of, escape_spec, extend, extend_str, quote, quote_spec, string_of};
use vstd::prelude::*;

verus! {

/// Every reason this build refuses, in `rhino.area.reason` form.
#[derive(Debug, Clone, Copy, PartialEq, Eq, Structural)]
pub enum ErrorCode {
    /// An option or command this build does not recognize.
    ArgsUnrecognized,
    /// A recognized option given without the value or the partner it needs.
    ArgsIncomplete,
    /// Standard input was selected and could not be read.
    InputUnreadable,
    /// The repository root could not be established or is unusable.
    RepositoryUnusable,
    /// The configuration file is missing, unparseable, or refuses this command.
    ConfigUnusable,
    /// The configuration parses and declares nothing this command can act on.
    ConfigUndeclared,
    /// A declared path leaves the repository root, or is not repository-relative.
    PathEscapesRoot,
    /// A declared file the command needs is not there.
    FileMissing,
    /// A declared file is there and could not be read.
    FileUnreadable,
    /// A declared target exists and the command was not authorized to replace it.
    FileExists,
    /// A gate child was named and does not exist.
    GateChildNotFound,
    /// A gate child exists and could not be executed.
    GateChildNotExecutable,
    /// A gate child could not be run for any other reason.
    GateChildRefused,
    /// A gate declares no runnable command.
    GateUndeclared,
    /// A declared toolchain could not be probed or provisioned.
    ToolchainFailed,
    /// A declared toolchain has no declaration for this platform.
    ToolchainUndeclared,
    /// A canonical harness adapter could not be validated or written.
    HarnessRefused,
}

impl ErrorCode {
    /// The published spelling of a code.
    pub open spec fn text(self) -> Seq<char> {
        match self {
            ErrorCode::ArgsUnrecognized => "rhino.args.unrecognized"@,
            ErrorCode::ArgsIncomplete => "rhino.args.incomplete"@,
            ErrorCode::InputUnreadable => "rhino.input.unreadable"@,
            ErrorCode::RepositoryUnusable => "rhino.repository.unusable"@,
            ErrorCode::ConfigUnusable => "rhino.config.unusable"@,
            ErrorCode::ConfigUndeclared => "rhino.config.undeclared"@,
            ErrorCode::PathEscapesRoot => "rhino.path.escapes-root"@,
            ErrorCode::FileMissing => "rhino.file.missing"@,
            ErrorCode::FileUnreadable => "rhino.file.unreadable"@,
            ErrorCode::FileExists => "rhino.file.exists"@,
            ErrorCode::GateChildNotFound => "rhino.gate.child-not-found"@,
            ErrorCode::GateChildNotExecutable => "rhino.gate.child-not-executable"@,
            ErrorCode::GateChildRefused => "rhino.gate.child-refused"@,
            ErrorCode::GateUndeclared => "rhino.gate.undeclared"@,
            ErrorCode::ToolchainFailed => "rhino.toolchain.failed"@,
            ErrorCode::ToolchainUndeclared => "rhino.toolchain.undeclared"@,
            ErrorCode::HarnessRefused => "rhino.harness.refused"@,
        }
    }

    /// Every member, in the order `--help` publishes them.
    pub fn all() -> (r: Vec<ErrorCode>)
        ensures
            r@.len() == 17,
            forall|c: ErrorCode| r@.contains(c),
            forall|i: int, j: int| 0 <= i < j < r@.len() ==> r@[i] != r@[j],
    {
        let r = vec![
            ErrorCode::ArgsUnrecognized,
            ErrorCode::ArgsIncomplete,
            ErrorCode::InputUnreadable,
            ErrorCode::RepositoryUnusable,
            ErrorCode::ConfigUnusable,
            ErrorCode::ConfigUndeclared,
            ErrorCode::PathEscapesRoot,
            ErrorCode::FileMissing,
            ErrorCode::FileUnreadable,
            ErrorCode::FileExists,
            ErrorCode::GateChildNotFound,
            ErrorCode::GateChildNotExecutable,
            ErrorCode::GateChildRefused,
            ErrorCode::GateUndeclared,
            ErrorCode::ToolchainFailed,
            ErrorCode::ToolchainUndeclared,
            ErrorCode::HarnessRefused,
        ];
        assert forall|c: ErrorCode| r@.contains(c) by {
            match c {
                ErrorCode::ArgsUnrecognized => assert(r@[0] == c),
                ErrorCode::ArgsIncomplete => assert(r@[1] == c),
                ErrorCode::InputUnreadable => assert(r@[2] == c),
                ErrorCode::RepositoryUnusable => assert(r@[3] == c),
                ErrorCode::ConfigUnusable => assert(r@[4] == c),
                ErrorCode::ConfigUndeclared => assert(r@[5] == c),
                ErrorCode::PathEscapesRoot => assert(r@[6] == c),
                ErrorCode::FileMissing => assert(r@[7] == c),
                ErrorCode::FileUnreadable => assert(r@[8] == c),
                ErrorCode::FileExists => assert(r@[9] == c),
                ErrorCode::GateChildNotFound => assert(r@[10] == c),
                ErrorCode::GateChildNotExecutable => assert(r@[11] == c),
                ErrorCode::GateChildRefused => assert(r@[12] == c),
                ErrorCode::GateUndeclared => assert(r@[13] == c),
                ErrorCode::ToolchainFailed => assert(r@[14] == c),
                ErrorCode::ToolchainUndeclared => assert(r@[15] == c),
                ErrorCode::HarnessRefused => assert(r@[16] == c),
            }
        }
        r
    }

    pub fn as_str(self) -> (r: &'static str)
        ensures
            r@ == self.text(),
    {
        match self {
            ErrorCode::ArgsUnrecognized => "rhino.args.unrecognized",
            ErrorCode::ArgsIncomplete => "rhino.args.incomplete",
            ErrorCode::InputUnreadable => "rhino.input.unreadable",
            ErrorCode::RepositoryUnusable => "rhino.repository.unusable",
            ErrorCode::ConfigUnusable => "rhino.config.unusable",
            ErrorCode::ConfigUndeclared => "rhino.config.undeclared",
            ErrorCode::PathEscapesRoot => "rhino.path.escapes-root",
            ErrorCode::FileMissing => "rhino.file.missing",
            ErrorCode::FileUnreadable => "rhino.file.unreadable",
            ErrorCode::FileExists => "rhino.file.exists",
            ErrorCode::GateChildNotFound => "rhino.gate.child-not-found",
            ErrorCode::GateChildNotExecutable => "rhino.gate.child-not-executable",
            ErrorCode::GateChildRefused => "rhino.gate.child-refused",
            ErrorCode::GateUndeclared => "rhino.gate.undeclared",
            ErrorCode::ToolchainFailed => "rhino.toolchain.failed",
            ErrorCode::ToolchainUndeclared => "rhino.toolchain.undeclared",
            ErrorCode::HarnessRefused => "rhino.harness.refused",
        }
    }
}

/// A message without the line breaks that end it.
pub open spec fn trim_newlines(s: Seq<char>) -> Seq<char>
    decreases s.len(),
{
    if s.len() > 0 && s.last() == '\n' {
        trim_newlines(s.drop_last())
    } else {
        s
    }
}

/// The body a refusal writes to standard error.
pub open spec fn body_spec(format: Format, code: ErrorCode, message: Seq<char>) -> Seq<char> {
    let m = trim_newlines(message);
    match format {
        Format::Text => "rhino: "@ + one_line(m) + "\n"@,
        Format::Json => "{\"schemaVersion\":1,\"error\":{\"code\":"@ + quote_spec(code.text())
            + ",\"message\":"@ + quote_spec(m) + "}}\n"@,
    }
}

/// A message with each line break inside it written as a space, so that it
/// reads as one line.
pub open spec fn one_line(m: Seq<char>) -> Seq<char> {
    m.map_values(|c: char| if c == '\n' || c == '\r' { ' ' } else { c })
}

fn single_line(m: &Vec<char>) -> (r: Vec<char>)
    ensures
        r@ == one_line(m@),
{
    let mut r: Vec<char> = Vec::new();
    let mut i: usize = 0;
    while i < m.len()
        invariant
            i <= m.len(),
            r@ == one_line(m@.take(i as int)),
        decreases m.len() - i,
    {
        let c = m[i];
        if c == '\n' || c == '\r' {
            r.push(' ');
        } else {
            r.push(c);
        }
        assert(one_line(m@.take(i + 1)) =~= one_line(m@.take(i as int)).push(if c == '\n' || c == '\r' { ' ' } else { c }));
        i += 1;
    }
    assert(m@.take(m.len() as int) =~= m@);
    r
}

fn without_newlines(v: Vec<char>) -> (r: Vec<char>)
    ensures
        r@ == trim_newlines(v@),
    decreases v.len(),
{
    let mut v = v;
    if v.len() > 0 && v[v.len() - 1] == '\n' {
        v.pop();
        without_newlines(v)
    } else {
        v
    }
}

/// What a refusal writes to standard error, in the format the caller asked
/// for: one line beginning with the program name, or a JSON document carrying
/// the code.
pub fn body(format: Format, code: ErrorCode, message: &str) -> (r: String)
    ensures
        r@ == body_spec(format, code, message@),
{
    let m = without_newlines(chars_of(message));
    let mut out: Vec<char> = Vec::new();
    match format {
        Format::Text => {
            extend_str(&mut out, "rhino: ");
            extend(&mut out, &single_line(&m));
            extend_str(&mut out, "\n");
        },
        Format::Json => {
            extend_str(&mut out, "{\"schemaVersion\":1,\"error\":{\"code\":");
            let c = chars_of(code.as_str());
            extend(&mut out, &quote(&c));
            extend_str(&mut out, ",\"message\":");
            extend(&mut out, &quote(&m));
            extend_str(&mut out, "}}\n");
        },
    }
    string_of(&out)
}

/// Which code a spelling names, read from the first letter of its area and
/// its length.
pub open spec fn decode(s: Seq<char>) -> ErrorCode {
    let area = s[6];
    let n = s.len();
    if area == 'a' {
        if n == 23 {
            ErrorCode::ArgsUnrecognized
        } else {
            ErrorCode::ArgsIncomplete
        }
    } else if area == 'i' {
        ErrorCode::InputUnreadable
    } else if area == 'r' {
        ErrorCode::RepositoryUnusable
    } else if area == 'c' {
        if n == 21 {
            ErrorCode::ConfigUnusable
        } else {
            ErrorCode::ConfigUndeclared
        }
    } else if area == 'p' {
        ErrorCode::PathEscapesRoot
    } else if area == 'f' {
        if n == 18 {
            ErrorCode::FileMissing
        } else if n == 21 {
            ErrorCode::FileUnreadable
        } else {
            ErrorCode::FileExists
        }
    } else if area == 'g' {
        if n == 26 {
            ErrorCode::GateChildNotFound
        } else if n == 31 {
            ErrorCode::GateChildNotExecutable
        } else if n == 24 {
            ErrorCode::GateChildRefused
        } else {
            ErrorCode::GateUndeclared
        }
    } else if area == 't' {
        if n == 22 {
            ErrorCode::ToolchainFailed
        } else {
            ErrorCode::ToolchainUndeclared
        }
    } else {
        ErrorCode::HarnessRefused
    }
}

proof fn lemma_decode(a: ErrorCode)
    ensures
        decode(a.text()) == a,
{
    match a {
        ErrorCode::ArgsUnrecognized => reveal_strlit("rhino.args.unrecognized"),
        ErrorCode::ArgsIncomplete => reveal_strlit("rhino.args.incomplete"),
        ErrorCode::InputUnreadable => reveal_strlit("rhino.input.unreadable"),
        ErrorCode::RepositoryUnusable => reveal_strlit("rhino.repository.unusable"),
        ErrorCode::ConfigUnusable => reveal_strlit("rhino.config.unusable"),
        ErrorCode::ConfigUndeclared => reveal_strlit("rhino.config.undeclared"),
        ErrorCode::PathEscapesRoot => reveal_strlit("rhino.path.escapes-root"),
        ErrorCode::FileMissing => reveal_strlit("rhino.file.missing"),
        ErrorCode::FileUnreadable => reveal_strlit("rhino.file.unreadable"),
        ErrorCode::FileExists => reveal_strlit("rhino.file.exists"),
        ErrorCode::GateChildNotFound => reveal_strlit("rhino.gate.child-not-found"),
        ErrorCode::GateChildNotExecutable => reveal_strlit("rhino.gate.child-not-executable"),
        ErrorCode::GateChildRefused => reveal_strlit("rhino.gate.child-refused"),
        ErrorCode::GateUndeclared => reveal_strlit("rhino.gate.undeclared"),
        ErrorCode::ToolchainFailed => reveal_strlit("rhino.toolchain.failed"),
        ErrorCode::ToolchainUndeclared => reveal_strlit("rhino.toolchain.undeclared"),
        ErrorCode::HarnessRefused => reveal_strlit("rhino.harness.refused"),
    }
}

/// Distinct codes are spelled distinctly: a caller matching on the string
/// matches exactly one reason.
pub proof fn lemma_codes_distinct(a: ErrorCode, b: ErrorCode)
    requires
        a != b,
    ensures
        a.text() != b.text(),
{
    lemma_decode(a);
    lemma_decode(b);
}

/// Every code is namespaced under the tool: it begins `rhino.`.
pub proof fn lemma_codes_namespaced(a: ErrorCode)
    ensures
        "rhino."@.is_prefix_of(a.text()),
{
    reveal_strlit("rhino.");
    match a {
        ErrorCode::ArgsUnrecognized => reveal_strlit("rhino.args.unrecognized"),
        ErrorCode::ArgsIncomplete => reveal_strlit("rhino.args.incomplete"),
        ErrorCode::InputUnreadable => reveal_strlit("rhino.input.unreadable"),
        ErrorCode::RepositoryUnusable => reveal_strlit("rhino.repository.unusable"),
        ErrorCode::ConfigUnusable => reveal_strlit("rhino.config.unusable"),
        ErrorCode::ConfigUndeclared => reveal_strlit("rhino.config.undeclared"),
        ErrorCode::PathEscapesRoot => reveal_strlit("rhino.path.escapes-root"),
        ErrorCode::FileMissing => reveal_strlit("rhino.file.missing"),
        ErrorCode::FileUnreadable => reveal_strlit("rhino.file.unreadable"),
        ErrorCode::FileExists => reveal_strlit("rhino.file.exists"),
        ErrorCode::GateChildNotFound => reveal_strlit("rhino.gate.child-not-found"),
        ErrorCode::GateChildNotExecutable => reveal_strlit("rhino.gate.child-not-executable"),
        ErrorCode::GateChildRefused => reveal_strlit("rhino.gate.child-refused"),
        ErrorCode::GateUndeclared => reveal_strlit("rhino.gate.undeclared"),
        ErrorCode::ToolchainFailed => reveal_strlit("rhino.toolchain.failed"),
        ErrorCode::ToolchainUndeclared => reveal_strlit("rhino.toolchain.undeclared"),
        ErrorCode::HarnessRefused => reveal_strlit("rhino.harness.refused"),
    }
    assert("rhino."@ =~= a.text().take(6));
}


/// Whether `s` is exactly one line: it ends with a line break and holds no
/// other.
pub open spec fn is_one_line(s: Seq<char>) -> bool {
    &&& s.len() > 0
    &&& s.last() == '\n'
    &&& forall|i: int| 0 <= i < s.len() - 1 ==> s[i] != '\n'
}

/// Whatever the message holds, the body of a refusal is one line, in either
/// format: the text form because line breaks inside the message are written
/// as spaces, the JSON form because the message is escaped.
pub proof fn lemma_body_one_line(format: Format, code: ErrorCode, message: Seq<char>)
    ensures
        is_one_line(body_spec(format, code, message)),
{
    let m = trim_newlines(message);
    reveal_strlit("rhino: ");
    reveal_strlit("\n");
    match format {
        Format::Text => {
            let b = body_spec(format, code, message);
            let o = one_line(m);
            assert forall|i: int| 0 <= i < b.len() - 1 implies b[i] != '\n' by {
                if i >= 7 {
                    assert(b[i] == o[i - 7]);
                }
            }
        },
        Format::Json => {
            let head = "{\"schemaVersion\":1,\"error\":{\"code\":"@;
            let mid = ",\"message\":"@;
            let tail = "}}\n"@;
            reveal_strlit("{\"schemaVersion\":1,\"error\":{\"code\":");
            reveal_strlit(",\"message\":");
            reveal_strlit("}}\n");
            let q1 = quote_spec(code.text());
            let q2 = quote_spec(m);
            crate::text::lemma_quote_nl_free(code.text());
            crate::text::lemma_quote_nl_free(m);
            assert forall|i: int| 0 <= i < q1.len() implies q1[i] != '\n' by {
                if 0 < i < q1.len() - 1 {
                    assert(q1[i] == escape_spec(code.text())[i - 1]);
                }
            }
            assert forall|i: int| 0 <= i < q2.len() implies q2[i] != '\n' by {
                if 0 < i < q2.len() - 1 {
                    assert(q2[i] == escape_spec(m)[i - 1]);
                }
            }
            let b = body_spec(format, code, message);
            assert(b == head + q1 + mid + q2 + tail);
            assert forall|i: int| 0 <= i < b.len() - 1 implies b[i] != '\n' by {
                let l1 = head.len() as int;
                let l2 = l1 + q1.len();
                let l3 = l2 + mid.len();
                let l4 = l3 + q2.len();
                if i < l1 {
                    assert(b[i] == head[i]);
                } else if i < l2 {
                    assert(b[i] == q1[i - l1]);
                } else if i < l3 {
                    assert(b[i] == mid[i - l2]);
                } else if i < l4 {
                    assert(b[i] == q2[i - l3]);
                } else {
                    assert(b[i] == tail[i - l4]);
                }
            }
        },
    }
}


/// A word of a code: not empty, and without the dot that separates words.
pub open spec fn code_word(w: Seq<char>) -> bool {
    w.len() > 0 && !w.contains('.')
}

/// Whether a spelling has the shape `rhino.<area>.<reason>`.
pub open spec fn three_part(s: Seq<char>) -> bool {
    exists|area: Seq<char>, reason: Seq<char>|
        #![trigger code_word(area), code_word(reason)]
        code_word(area) && code_word(reason) && s == "rhino."@ + area + "."@ + reason
}

proof fn lemma_shape(s: Seq<char>, area: Seq<char>, reason: Seq<char>)
    requires
        area.len() > 0,
        reason.len() > 0,
        forall|i: int| 0 <= i < area.len() ==> area[i] != '.',
        forall|i: int| 0 <= i < reason.len() ==> reason[i] != '.',
        s =~= "rhino."@ + area + "."@ + reason,
    ensures
        three_part(s),
{
    assert(code_word(area) && code_word(reason));
}

/// Every code is spelled `rhino.<area>.<reason>`: three words, none empty,
/// the first naming the tool.
pub proof fn lemma_codes_three_part(a: ErrorCode)
    ensures
        three_part(a.text()),
{
    reveal_strlit("rhino.");
    reveal_strlit(".");
    match a {
        ErrorCode::ArgsUnrecognized => {
            reveal_strlit("rhino.args.unrecognized");
            reveal_strlit("args");
            reveal_strlit("unrecognized");
            lemma_shape(a.text(), "args"@, "unrecognized"@);
        },
        ErrorCode::ArgsIncomplete => {
            reveal_strlit("rhino.args.incomplete");
            reveal_strlit("args");
            reveal_strlit("incomplete");
            lemma_shape(a.text(), "args"@, "incomplete"@);
        },
        ErrorCode::InputUnreadable => {
            reveal_strlit("rhino.input.unreadable");
            reveal_strlit("input");
            reveal_strlit("unreadable");
            lemma_shape(a.text(), "input"@, "unreadable"@);
        },
        ErrorCode::RepositoryUnusable => {
            reveal_strlit("rhino.repository.unusable");
            reveal_strlit("repository");
            reveal_strlit("unusable");
            lemma_shape(a.text(), "repository"@, "unusable"@);
        },
        ErrorCode::ConfigUnusable => {
            reveal_strlit("rhino.config.unusable");
            reveal_strlit("config");
            reveal_strlit("unusable");
            lemma_shape(a.text(), "config"@, "unusable"@);
        },
        ErrorCode::ConfigUndeclared => {
            reveal_strlit("rhino.config.undeclared");
            reveal_strlit("config");
            reveal_strlit("undeclared");
            lemma_shape(a.text(), "config"@, "undeclared"@);
        },
        ErrorCode::PathEscapesRoot => {
            reveal_strlit("rhino.path.escapes-root");
            reveal_strlit("path");
            reveal_strlit("escapes-root");
            lemma_shape(a.text(), "path"@, "escapes-root"@);
        },
        ErrorCode::FileMissing => {
            reveal_strlit("rhino.file.missing");
            reveal_strlit("file");
            reveal_strlit("missing");
            lemma_shape(a.text(), "file"@, "missing"@);
        },
        ErrorCode::FileUnreadable => {
            reveal_strlit("rhino.file.unreadable");
            reveal_strlit("file");
            reveal_strlit("unreadable");
            lemma_shape(a.text(), "file"@, "unreadable"@);
        },
        ErrorCode::FileExists => {
            reveal_strlit("rhino.file.exists");
            reveal_strlit("file");
            reveal_strlit("exists");
            lemma_shape(a.text(), "file"@, "exists"@);
        },
        ErrorCode::GateChildNotFound => {
            reveal_strlit("rhino.gate.child-not-found");
            reveal_strlit("gate");
            reveal_strlit("child-not-found");
            lemma_shape(a.text(), "gate"@, "child-not-found"@);
        },
        ErrorCode::GateChildNotExecutable => {
            reveal_strlit("rhino.gate.child-not-executable");
            reveal_strlit("gate");
            reveal_strlit("child-not-executable");
            lemma_shape(a.text(), "gate"@, "child-not-executable"@);
        },
        ErrorCode::GateChildRefused => {
            reveal_strlit("rhino.gate.child-refused");
            reveal_strlit("gate");
            reveal_strlit("child-refused");
            lemma_shape(a.text(), "gate"@, "child-refused"@);
        },
        ErrorCode::GateUndeclared => {
            reveal_strlit("rhino.gate.undeclared");
            reveal_strlit("gate");
            reveal_strlit("undeclared");
            lemma_shape(a.text(), "gate"@, "undeclared"@);
        },
        ErrorCode::ToolchainFailed => {
            reveal_strlit("rhino.toolchain.failed");
            reveal_strlit("toolchain");
            reveal_strlit("failed");
            lemma_shape(a.text(), "toolchain"@, "failed"@);
        },
        ErrorCode::ToolchainUndeclared => {
            reveal_strlit("rhino.toolchain.undeclared");
            reveal_strlit("toolchain");
            reveal_strlit("undeclared");
            lemma_shape(a.text(), "toolchain"@, "undeclared"@);
        },
        ErrorCode::HarnessRefused => {
            reveal_strlit("rhino.harness.refused");
            reveal_strlit("harness");
            reveal_strlit("refused");
            lemma_shape(a.text(), "harness"@, "refused"@);
        },
    }
}


/// The JSON body of a refusal is its fixed frame around two JSON strings,
/// and those decode to exactly the code and the message (without its ending
/// line breaks), whatever quotes, backslashes or control characters the
/// message holds.
pub proof fn lemma_body_decodes(code: ErrorCode, message: Seq<char>)
    ensures
        body_spec(Format::Json, code, message) == "{\"schemaVersion\":1,\"error\":{\"code\":"@ + quote_spec(code.text())
            + ",\"message\":"@ + quote_spec(trim_newlines(message)) + "}}\n"@,
        crate::text::unescape(quote_spec(code.text()).subrange(1, quote_spec(code.text()).len() - 1)) == code.text(),
        crate::text::unescape(quote_spec(trim_newlines(message)).subrange(1, quote_spec(trim_newlines(message)).len() - 1))
            == trim_newlines(message),
{
    crate::text::lemma_quote_decodes(code.text());
    crate::text::lemma_quote_decodes(trim_newlines(message));
}

} // verus!
