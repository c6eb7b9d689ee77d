//! Every rule the repository enforces, as findings that name the file and say
//! what to do.

use vstd::prelude::*;

use crate::text::{
    chars_of, decimal, lines, lines_of, owned, push_char, push_decimal, push_str, trim_start,
    trim_start_at, views,
};

verus! {

/// How bad a finding is.
#[derive(Debug, Clone, Copy, PartialEq, Eq, Structural, PartialOrd, Ord, Hash)]
pub enum Severity {
    /// Worth fixing; fails only under `--strict`.
    Warning,
    /// Fails the build.
    Error,
}

/// One thing wrong, and what to do about it.
#[derive(Debug, Clone, PartialEq, Eq)]
pub struct Finding {
    /// Error or warning.
    pub severity: Severity,
    /// The file, relative to the root, `/`-separated.
    pub path: String,
    /// The line, when one applies.
    pub line: Option<u32>,
    /// What is wrong.
    pub message: String,
    /// What to do.
    pub hint: Option<String>,
}

/// `error` or `warning`.
pub open spec fn kind_text(s: Severity) -> Seq<char> {
    match s {
        Severity::Error => "error"@,
        Severity::Warning => "warning"@,
    }
}

/// A message with every newline written as `%0A`, which is how a workflow
/// command carries one.
pub open spec fn escape_newlines(s: Seq<char>) -> Seq<char>
    decreases s.len(),
{
    if s.len() == 0 {
        seq![]
    } else if s.last() == '\n' {
        escape_newlines(s.drop_last()) + "%0A"@
    } else {
        escape_newlines(s.drop_last()).push(s.last())
    }
}

/// The workflow command a finding turns into.
pub open spec fn annotation_of(f: Finding) -> Seq<char> {
    let line = match f.line {
        Some(n) => ",line="@ + decimal(n as nat),
        None => seq![],
    };
    let hint = match f.hint {
        Some(h) => " "@ + h@,
        None => seq![],
    };
    "::"@ + kind_text(f.severity) + " file="@ + f.path@ + line + "::"@ + escape_newlines(f.message@)
        + hint
}

/// How a finding prints: `error: presets/Bass/x.toml:3: bad Fix it.`
pub open spec fn finding_text(f: Finding) -> Seq<char> {
    let line = match f.line {
        Some(n) => ":"@ + decimal(n as nat),
        None => seq![],
    };
    let hint = match f.hint {
        Some(h) => " "@ + h@,
        None => seq![],
    };
    kind_text(f.severity) + ": "@ + f.path@ + line + ": "@ + f.message@ + hint
}

impl Finding {
    /// An error with no hint.
    pub fn error(path: &str, message: &str) -> (f: Finding)
        ensures
            f.severity == Severity::Error,
            f.path@ == path@,
            f.line is None,
            f.message@ == message@,
            f.hint is None,
    {
        Finding {
            severity: Severity::Error,
            path: owned(path),
            line: None,
            message: owned(message),
            hint: None,
        }
    }

    /// A warning with no hint.
    pub fn warning(path: &str, message: &str) -> (f: Finding)
        ensures
            f.severity == Severity::Warning,
            f.path@ == path@,
            f.line is None,
            f.message@ == message@,
            f.hint is None,
    {
        Finding {
            severity: Severity::Warning,
            path: owned(path),
            line: None,
            message: owned(message),
            hint: None,
        }
    }

    /// Adds the fix.
    pub fn hint(self, hint: &str) -> (f: Finding)
        ensures
            f == (Finding { hint: f.hint, ..self }),
            f.hint matches Some(h) && h@ == hint@,
    {
        Finding { hint: Some(owned(hint)), ..self }
    }

    /// Adds the line.
    pub fn at(self, line: Option<u32>) -> (f: Finding)
        ensures
            f == (Finding { line, ..self }),
    {
        Finding { line, ..self }
    }

    /// A GitHub Actions workflow command, which turns into an annotation on the
    /// pull request.
    pub fn annotation(&self) -> (s: String)
        ensures
            s@ == annotation_of(*self),
    {
        let mut s = owned("::");
        push_kind(&mut s, self.severity);
        push_str(&mut s, " file=");
        push_str(&mut s, self.path.as_str());
        if let Some(line) = self.line {
            push_str(&mut s, ",line=");
            push_decimal(&mut s, line as u64);
        }
        push_str(&mut s, "::");
        let ghost before = s@;
        let message = chars_of(self.message.as_str());
        let mut i: usize = 0;
        while i < message.len()
            invariant
                i <= message@.len(),
                s@ == before + escape_newlines(message@.take(i as int)),
            decreases message@.len() - i,
        {
            assert(message@.take(i + 1).drop_last() == message@.take(i as int));
            if message[i] == '\n' {
                push_str(&mut s, "%0A");
            } else {
                push_char(&mut s, message[i]);
            }
            i = i + 1;
        }
        assert(message@.take(message@.len() as int) == message@);
        if let Some(hint) = &self.hint {
            push_str(&mut s, " ");
            push_str(&mut s, hint.as_str());
        }
        s
    }

    /// How the finding prints.
    pub fn to_string(&self) -> (s: String)
        ensures
            s@ == finding_text(*self),
    {
        let mut s = String::new();
        push_kind(&mut s, self.severity);
        push_str(&mut s, ": ");
        push_str(&mut s, self.path.as_str());
        if let Some(line) = self.line {
            push_str(&mut s, ":");
            push_decimal(&mut s, line as u64);
        }
        push_str(&mut s, ": ");
        push_str(&mut s, self.message.as_str());
        if let Some(hint) = &self.hint {
            push_str(&mut s, " ");
            push_str(&mut s, hint.as_str());
        }
        s
    }
}

fn push_kind(s: &mut String, severity: Severity)
    ensures
        final(s)@ == old(s)@ + kind_text(severity),
{
    match severity {
        Severity::Error => push_str(s, "error"),
        Severity::Warning => push_str(s, "warning"),
    }
}

/// Whether a run's findings fail it: any error, or any finding at all under
/// `strict`.
pub open spec fn fails_of(findings: Seq<Finding>, strict: bool) -> bool {
    exists|i: int|
        0 <= i < findings.len() && (strict || (#[trigger] findings[i]).severity == Severity::Error)
}

/// Whether a run's findings should fail: any error, or any finding under
/// `strict`.
pub fn fails(findings: &[Finding], strict: bool) -> (r: bool)
    ensures
        r == fails_of(findings@, strict),
{
    let mut i: usize = 0;
    while i < findings.len()
        invariant
            i <= findings@.len(),
            forall|j: int|
                0 <= j < i ==> !(strict || (#[trigger] findings@[j]).severity == Severity::Error),
        decreases findings@.len() - i,
    {
        if strict || findings[i].severity == Severity::Error {
            assert(strict || findings@[i as int].severity == Severity::Error);
            return true;
        }
        i = i + 1;
    }
    false
}

/// Whether a line sets `key` or is the header `key`: once leading
/// whitespace is dropped, the line is `key`, or `key` followed by optional
/// whitespace and `=`.
pub open spec fn sets_key(line: Seq<char>, key: Seq<char>) -> bool {
    let l = trim_start(line);
    l == key || (l.len() >= key.len() && l.take(key.len() as int) == key && {
        let rest = trim_start(l.skip(key.len() as int));
        rest.len() > 0 && rest[0] == '='
    })
}

/// The 1-based line a top-level key or table header sits on: the first line
/// that sets it.
#[verifier::opaque]
pub open spec fn line_of_key(text: Seq<char>, key: Seq<char>) -> Option<u32> {
    let ls = lines(text);
    if exists|i: int| 0 <= i < ls.len() && sets_key(#[trigger] ls[i], key) {
        let i = choose|i: int|
            0 <= i < ls.len() && sets_key(#[trigger] ls[i], key) && forall|j: int|
                0 <= j < i ==> !sets_key(#[trigger] ls[j], key);
        if i + 1 <= u32::MAX {
            Some((i + 1) as u32)
        } else {
            None
        }
    } else {
        None
    }
}

fn line_sets_key(line: &[char], key: &[char]) -> (r: bool)
    ensures
        r == sets_key(line@, key@),
{
    let a = trim_start_at(line);
    let l = crate::text::slice_of(line, a, line.len());
    assert(l@ == trim_start(line@));
    if l.len() < key.len() {
        assert(l@ != key@);
        return false;
    }
    let mut i: usize = 0;
    while i < key.len()
        invariant
            i <= key@.len(),
            key@.len() <= l@.len(),
            l@ == trim_start(line@),
            forall|j: int| 0 <= j < i ==> l@[j] == key@[j],
        decreases key@.len() - i,
    {
        if l[i] != key[i] {
            assert(l@.take(key@.len() as int)[i as int] != key@[i as int]);
            assert(l@.take(key@.len() as int) != key@);
            assert(l@ != key@) by {
                if l@ == key@ {
                    assert(l@[i as int] == key@[i as int]);
                }
            }
            return false;
        }
        i = i + 1;
    }
    assert(l@.take(key@.len() as int) == key@);
    if l.len() == key.len() {
        assert(l@ == key@);
        return true;
    }
    let rest = crate::text::slice_of(l.as_slice(), key.len(), l.len());
    assert(rest@ == l@.skip(key@.len() as int));
    let b = trim_start_at(rest.as_slice());
    b < rest.len() && rest[b] == '='
}

/// The 1-based line a top-level key or table header sits on.
pub fn line_of(text: &str, key: &str) -> (r: Option<u32>)
    ensures
        r == line_of_key(text@, key@),
{
    proof {
        reveal(line_of_key);
    }
    let ls = lines_of(text);
    let k = chars_of(key);
    let ghost spec_lines = lines(text@);
    let mut i: usize = 0;
    while i < ls.len()
        invariant
            i <= ls@.len(),
            views(ls@) == spec_lines,
            spec_lines == lines(text@),
            k@ == key@,
            forall|j: int| 0 <= j < i ==> !sets_key(#[trigger] spec_lines[j], key@),
        decreases ls@.len() - i,
    {
        assert(spec_lines[i as int] == ls@[i as int]@);
        if line_sets_key(ls[i].as_slice(), k.as_slice()) {
            proof {
                reveal(line_of_key);
                let w = choose|w: int|
                    0 <= w < spec_lines.len() && sets_key(#[trigger] spec_lines[w], key@) && forall|
                        j: int,
                    | 0 <= j < w ==> !sets_key(#[trigger] spec_lines[j], key@);
                assert(sets_key(spec_lines[i as int], key@));
                if w < i {
                } else if w > i {
                    assert(!sets_key(spec_lines[i as int], key@));
                }
            }
            if i < 4294967295 {
                return Some((i + 1) as u32);
            } else {
                return None;
            }
        }
        i = i + 1;
    }
    proof {
        reveal(line_of_key);
    }
    None
}

} // verus!
