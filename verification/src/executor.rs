//! The command side of the bridge: the message parser that turns chat text
//! into a structured command request, the registry of named command
//! templates, the template renderer, and the execution engine.

use vstd::prelude::*;
use vstd::string::{StrSliceExecFns, StringExecFns};

use crate::text::{
    drop_while, find_char, find_char_from, find_last, find_last_char, find_pat, find_substr,
    is_space_char, lemma_drop_while_right_take, lemma_drop_while_skip, lemma_find_char,
    lemma_find_last, lemma_find_pat, str_eq, trim, trim_spec,
};

verus! {

/// A command request extracted from one chat message: the executor it names
/// and the payload text handed to that executor.
#[derive(Debug, Default, Clone, PartialEq, Eq)]
pub struct ExecutorInput {
    pub name: String,
    pub input: String,
}

/// Failure of the directive parser inside a fenced block.
#[derive(Debug, Clone, PartialEq, Eq)]
pub enum ParseCodeBlockError {
    /// A directive line held no `:` separating a key from a value; carries
    /// the offending line.
    SplitFailure(String),
    /// A directive line named a key other than `executor`; carries the key.
    UnrecognizedDirective(String),
}

/// Failure to build an `ExecutorInput` from a chat message.
#[derive(Debug, Clone, PartialEq, Eq)]
pub enum ExecutorInputError {
    /// The message held no complete fenced block; carries the message.
    NoCodeBlock(String),
    ParseCodeBlockError(ParseCodeBlockError),
}

/// The triple-backtick marker that fences a code block.
pub open spec fn fence() -> Seq<char> {
    seq!['`', '`', '`']
}

/// The text between the first fence marker and the next one after it, if
/// both are present.
pub open spec fn extract_block_spec(s: Seq<char>) -> Option<Seq<char>> {
    match find_pat(s, fence()) {
        None => None,
        Some(i) => {
            let rest = s.skip(i + 3);
            match find_pat(rest, fence()) {
                None => None,
                Some(j) => Some(rest.take(j)),
            }
        },
    }
}

/// Outcome of parsing the lines of a fenced block.
pub enum BlockParse {
    /// Every line was understood: the `executor` directive's value (or empty
    /// if there was none) and the concatenation of the non-directive lines.
    Parsed { name: Seq<char>, input: Seq<char> },
    /// A directive line without a `:`; carries that line, stripped of its
    /// leading `#` marks and trimmed.
    SplitFailure { line: Seq<char> },
    /// A directive line with an unrecognized key; carries the key.
    UnrecognizedDirective { key: Seq<char> },
}

/// Parses the remaining block text `s`, line by line, with `name` and
/// `input` accumulated from the lines already consumed. Each line is
/// trimmed; a line starting with `#` is a directive (stripped of leading
/// `#` marks, trimmed, split at its last `:` with the key being the part
/// between the previous `:`, if any, and that one); every other line is
/// appended to the payload without a separator. A later `executor`
/// directive overrides an earlier one.
pub open spec fn parse_block_rest(s: Seq<char>, name: Seq<char>, input: Seq<char>) -> BlockParse
    decreases s.len(),
    via parse_block_rest_decreases
{
    let line_end = find_char(s, '\n');
    let line = match line_end {
        None => s,
        Some(k) => s.take(k),
    };
    let t = trim_spec(line);
    if t.len() > 0 && t[0] == '#' {
        let raw = trim_spec(drop_while(t, |c: char| c == '#'));
        match find_last(raw, ':') {
            None => BlockParse::SplitFailure { line: raw },
            Some(k) => {
                let value = raw.skip(k + 1);
                let key = match find_last(raw.take(k), ':') {
                    None => raw.take(k),
                    Some(j) => raw.take(k).skip(j + 1),
                };
                if key == "executor"@ {
                    match line_end {
                        None => BlockParse::Parsed { name: trim_spec(value), input },
                        Some(k2) => parse_block_rest(s.skip(k2 + 1), trim_spec(value), input),
                    }
                } else {
                    BlockParse::UnrecognizedDirective { key }
                }
            },
        }
    } else {
        match line_end {
            None => BlockParse::Parsed { name, input: input + t },
            Some(k2) => parse_block_rest(s.skip(k2 + 1), name, input + t),
        }
    }
}

#[via_fn]
proof fn parse_block_rest_decreases(s: Seq<char>, name: Seq<char>, input: Seq<char>) {
    lemma_find_char(s, '\n');
}

impl ExecutorInput {
    /// Builds a command request from a raw chat message: extracts the fenced
    /// block and parses its lines.
    pub fn new_from_slack(message: &str) -> (r: Result<Self, ExecutorInputError>)
        ensures
            match extract_block_spec(message@) {
                None => r matches Err(ExecutorInputError::NoCodeBlock(m)) && m@ == message@,
                Some(b) => match parse_block_rest(b, Seq::empty(), Seq::empty()) {
                    BlockParse::Parsed { name, input } => r matches Ok(x) && x.name@ == name
                        && x.input@ == input,
                    BlockParse::SplitFailure { line } => r matches Err(
                        ExecutorInputError::ParseCodeBlockError(ParseCodeBlockError::SplitFailure(l)),
                    ) && l@ == line,
                    BlockParse::UnrecognizedDirective { key } => r matches Err(
                        ExecutorInputError::ParseCodeBlockError(
                            ParseCodeBlockError::UnrecognizedDirective(k),
                        ),
                    ) && k@ == key,
                },
            },
    {
        let result = Self::extract_code_block_from_slack_message(message);

        let extracted_message = match result {
            Some(v) => v,
            None => {
                return Err(ExecutorInputError::NoCodeBlock(String::from_str(message)));
            },
        };

        match Self::parse_code_block(extracted_message) {
            Ok(executor_input) => Ok(executor_input),
            Err(e) => Err(ExecutorInputError::ParseCodeBlockError(e)),
        }
    }

    /// The text between the first two triple-backtick markers of the
    /// message, as `extract_block_spec` describes.
    pub fn extract_code_block_from_slack_message(message: &str) -> (r: Option<&str>)
        ensures
            match extract_block_spec(message@) {
                None => r is None,
                Some(b) => r matches Some(s) && s@ == b,
            },
    {
        let marker = "```";
        proof {
            reveal_strlit("```");
            assert(marker@ =~= fence());
        }
        let n = message.unicode_len();
        match find_substr(message, marker) {
            None => None,
            Some(i) => {
                proof {
                    lemma_find_pat(message@, marker@);
                }
                let start = i + 3;
                let tail = message.substring_char(start, n);
                proof {
                    assert(tail@ =~= message@.skip(start as int));
                }
                match find_substr(tail, marker) {
                    None => None,
                    Some(j) => {
                        proof {
                            lemma_find_pat(tail@, marker@);
                        }
                        let block = tail.substring_char(0, j);
                        proof {
                            assert(block@ =~= message@.skip(start as int).take(j as int));
                        }
                        Some(block)
                    },
                }
            },
        }
    }

    /// Parses the lines of a fenced block into a command request, as
    /// `parse_block_rest` describes, starting from empty accumulators.
    pub fn parse_code_block(message: &str) -> (r: Result<Self, ParseCodeBlockError>)
        ensures
            match parse_block_rest(message@, Seq::empty(), Seq::empty()) {
                BlockParse::Parsed { name, input } => r matches Ok(x) && x.name@ == name
                    && x.input@ == input,
                BlockParse::SplitFailure { line } => r matches Err(
                    ParseCodeBlockError::SplitFailure(l),
                ) && l@ == line,
                BlockParse::UnrecognizedDirective { key } => r matches Err(
                    ParseCodeBlockError::UnrecognizedDirective(k),
                ) && k@ == key,
            },
    {
        let n = message.unicode_len();
        let mut name = String::new();
        let mut input = String::new();
        let mut pos: usize = 0;
        proof {
            assert(message@.skip(0) =~= message@);
        }
        loop
            invariant
                n == message@.len(),
                pos <= n,
                parse_block_rest(message@, Seq::empty(), Seq::empty()) == parse_block_rest(
                    message@.skip(pos as int),
                    name@,
                    input@,
                ),
            decreases n - pos,
        {
            let ghost tail = message@.skip(pos as int);
            let line_end = find_char_from(message, pos, '\n');
            proof {
                lemma_find_char(tail, '\n');
            }
            let line_to = match line_end {
                Some(j) => j,
                None => n,
            };
            let line = message.substring_char(pos, line_to);
            proof {
                match find_char(tail, '\n') {
                    None => {
                        assert(line@ =~= tail);
                    },
                    Some(k) => {
                        assert(line@ =~= tail.take(k));
                    },
                }
            }
            let t = trim(line);
            let tn = t.unicode_len();
            if tn > 0 && t.get_char(0) == '#' {
                let mut h: usize = 0;
                while h < tn && t.get_char(h) == '#'
                    invariant
                        tn == t@.len(),
                        h <= tn,
                        forall|i: int| 0 <= i < h ==> t@[i] == '#',
                    decreases tn - h,
                {
                    h += 1;
                }
                let stripped = t.substring_char(h, tn);
                proof {
                    lemma_drop_while_skip(t@, |c: char| c == '#', h as int);
                    assert(stripped@ =~= t@.skip(h as int));
                }
                let raw = trim(stripped);
                let ghost rawv = trim_spec(drop_while(t@, |c: char| c == '#'));
                match find_last_char(raw, ':') {
                    None => {
                        return Err(ParseCodeBlockError::SplitFailure(String::from_str(raw)));
                    },
                    Some(k) => {
                        let rn = raw.unicode_len();
                        proof {
                            crate::text::lemma_find_last(raw@, ':');
                        }
                        let value = raw.substring_char(k + 1, rn);
                        proof {
                            assert(value@ =~= raw@.skip(k as int + 1));
                        }
                        let keypart = raw.substring_char(0, k);
                        proof {
                            assert(keypart@ =~= raw@.take(k as int));
                        }
                        let key = match find_last_char(keypart, ':') {
                            None => keypart,
                            Some(j) => {
                                proof {
                                    crate::text::lemma_find_last(keypart@, ':');
                                }
                                let kp = keypart.substring_char(j + 1, k);
                                proof {
                                    assert(kp@ =~= raw@.take(k as int).skip(j as int + 1));
                                }
                                kp
                            },
                        };
                        let is_executor = str_eq(key, "executor");
                        if is_executor {
                            name = String::from_str(trim(value));
                        } else {
                            return Err(
                                ParseCodeBlockError::UnrecognizedDirective(String::from_str(key)),
                            );
                        }
                    },
                }
            } else {
                input.append(t);
            }
            match line_end {
                Some(j) => {
                    proof {
                        assert(tail.skip(j - pos + 1) =~= message@.skip(j as int + 1));
                    }
                    pos = j + 1;
                },
                None => {
                    return Ok(ExecutorInput { name, input });
                },
            }
        }
    }
}

/// The trimmed lines of `s`, concatenated without a separator: what a
/// block of free text contributes to the payload.
pub open spec fn payload_of(s: Seq<char>) -> Seq<char>
    decreases s.len(),
    via payload_of_decreases
{
    match find_char(s, '\n') {
        None => trim_spec(s),
        Some(k) => trim_spec(s.take(k)) + payload_of(s.skip(k + 1)),
    }
}

#[via_fn]
proof fn payload_of_decreases(s: Seq<char>) {
    lemma_find_char(s, '\n');
}

/// No line of `s`, once trimmed, starts with `#`: the text holds no
/// directive line.
pub open spec fn no_directive_lines(s: Seq<char>) -> bool
    decreases s.len(),
    via no_directive_lines_decreases
{
    match find_char(s, '\n') {
        None => !(trim_spec(s).len() > 0 && trim_spec(s)[0] == '#'),
        Some(k) => !(trim_spec(s.take(k)).len() > 0 && trim_spec(s.take(k))[0] == '#')
            && no_directive_lines(s.skip(k + 1)),
    }
}

#[via_fn]
proof fn no_directive_lines_decreases(s: Seq<char>) {
    lemma_find_char(s, '\n');
}

/// Law: free text is passed through. Parsing lines none of which is a
/// directive leaves the executor name alone and appends exactly the
/// trimmed lines, concatenated without a separator, to the payload.
pub proof fn lemma_payload_only(s: Seq<char>, name: Seq<char>, input: Seq<char>)
    requires
        no_directive_lines(s),
    ensures
        parse_block_rest(s, name, input) == (BlockParse::Parsed {
            name,
            input: input + payload_of(s),
        }),
    decreases s.len(),
{
    lemma_find_char(s, '\n');
    match find_char(s, '\n') {
        None => {},
        Some(k) => {
            lemma_payload_only(s.skip(k + 1), name, input + trim_spec(s.take(k)));
            assert((input + trim_spec(s.take(k))) + payload_of(s.skip(k + 1)) =~= input + (
            trim_spec(s.take(k)) + payload_of(s.skip(k + 1))));
        },
    }
}

/// Law: a well-formed block runs the named executor on its free text. A
/// fenced block whose first line is `# executor: ` followed by a name
/// (made of ordinary characters: no `#`, `:`, newline or whitespace) and
/// whose remaining lines are free text parses to exactly that name and the
/// concatenation of the trimmed remaining lines.
pub proof fn lemma_executor_block(x: Seq<char>, rest: Seq<char>)
    requires
        x.len() > 0,
        forall|i: int|
            0 <= i < x.len() ==> x[i] != '\n' && x[i] != ':' && x[i] != '#' && !is_space_char(
                x[i],
            ),
        no_directive_lines(rest),
    ensures
        parse_block_rest("# executor: "@ + x + seq!['\n'] + rest, Seq::empty(), Seq::empty()) == (
        BlockParse::Parsed { name: x, input: payload_of(rest) }),
{
    reveal_strlit("# executor: ");
    reveal_strlit("executor");
    let pre = "# executor: "@;
    assert(pre =~= seq!['#', ' ', 'e', 'x', 'e', 'c', 'u', 't', 'o', 'r', ':', ' ']);
    let s = pre + x + seq!['\n'] + rest;
    let line_len = 12 + x.len() as int;
    assert(s[line_len] == '\n');
    assert forall|j: int| 0 <= j < line_len implies s[j] != '\n' by {
        if j < 12 {
            assert(s[j] == pre[j]);
        } else {
            assert(s[j] == x[j - 12]);
        }
    }
    lemma_find_char(s, '\n');
    assert(find_char(s, '\n') == Some(line_len));
    let line = pre + x;
    assert(s.take(line_len) =~= line);
    let sp = |c: char| is_space_char(c);
    assert(line[0] == '#');
    assert(line[line.len() - 1] == x[x.len() - 1]);
    lemma_drop_while_skip(line, sp, 0);
    assert(line.skip(0) =~= line);
    lemma_drop_while_right_take(line, sp, line.len() as int);
    assert(line.take(line.len() as int) =~= line);
    assert(trim_spec(line) == line);
    let hp = |c: char| c == '#';
    assert(line[1] == ' ');
    lemma_drop_while_skip(line, hp, 1);
    let t1 = line.skip(1);
    assert(t1[0] == ' ' && t1[1] == 'e');
    lemma_drop_while_skip(t1, sp, 1);
    let raw = t1.skip(1);
    assert(raw.len() == 10 + x.len());
    assert forall|j: int| 0 <= j < 10 implies raw[j] == pre[j + 2] by {}
    assert forall|j: int| 10 <= j < raw.len() implies raw[j] == x[j - 10] by {}
    assert(raw[raw.len() - 1] == x[x.len() - 1]);
    lemma_drop_while_right_take(raw, sp, raw.len() as int);
    assert(raw.take(raw.len() as int) =~= raw);
    assert(trim_spec(t1) == raw);
    assert(raw[8] == ':');
    assert forall|j: int| 8 < j < raw.len() implies raw[j] != ':' by {}
    lemma_find_last(raw, ':');
    assert(find_last(raw, ':') == Some(8int));
    let keypart = raw.take(8);
    assert forall|j: int| 0 <= j < 8 implies keypart[j] != ':' by {
        assert(keypart[j] == pre[j + 2]);
    }
    lemma_find_last(keypart, ':');
    assert(find_last(keypart, ':') is None);
    assert(keypart =~= "executor"@);
    let v = raw.skip(9);
    assert(v[0] == ' ');
    assert(v.len() == 1 + x.len());
    assert forall|j: int| 1 <= j < v.len() implies v[j] == x[j - 1] by {}
    lemma_drop_while_skip(v, sp, 1);
    assert(v.skip(1) =~= x);
    assert(x[x.len() - 1] == v[v.len() - 1]);
    lemma_drop_while_right_take(x, sp, x.len() as int);
    assert(x.take(x.len() as int) =~= x);
    assert(trim_spec(v) == x);
    assert(s.skip(line_len + 1) =~= rest);
    lemma_payload_only(rest, x, Seq::empty());
    assert(Seq::<char>::empty() + payload_of(rest) =~= payload_of(rest));
}

/// A named command template: one entry of the registry.
#[derive(Debug, Default, Clone, PartialEq, Eq)]
pub struct Executor {
    pub command: String,
}

/// The registry of named executors, read-only once built.
#[derive(Debug, Clone, PartialEq, Eq)]
pub struct Executors {
    executors: Vec<(String, Executor)>,
}

/// The mapping a list of registry entries denotes: one entry per unique
/// name, a later entry overriding an earlier one.
pub open spec fn registry_map(s: Seq<(String, Executor)>) -> Map<Seq<char>, Seq<char>>
    decreases s.len(),
{
    if s.len() == 0 {
        Map::empty()
    } else {
        registry_map(s.drop_last()).insert(s.last().0@, s.last().1.command@)
    }
}

/// The mapping a list of `(name, command template)` pairs denotes, a later
/// pair overriding an earlier one with the same name.
pub open spec fn pairs_map(s: Seq<(String, String)>) -> Map<Seq<char>, Seq<char>>
    decreases s.len(),
{
    if s.len() == 0 {
        Map::empty()
    } else {
        pairs_map(s.drop_last()).insert(s.last().0@, s.last().1@)
    }
}

impl View for Executors {
    type V = Map<Seq<char>, Seq<char>>;

    closed spec fn view(&self) -> Map<Seq<char>, Seq<char>> {
        registry_map(self.executors@)
    }
}

/// The last entry holding a key decides that key's value in the mapping.
proof fn lemma_registry_map_last(s: Seq<(String, Executor)>, k: Seq<char>, i: int)
    requires
        0 <= i < s.len(),
        s[i].0@ == k,
        forall|j: int| i < j < s.len() ==> s[j].0@ != k,
    ensures
        registry_map(s).contains_key(k),
        registry_map(s)[k] == s[i].1.command@,
    decreases s.len(),
{
    if i < s.len() - 1 {
        assert forall|j: int| i < j < s.drop_last().len() implies s.drop_last()[j].0@ != k by {}
        assert(s.drop_last()[i] == s[i]);
        lemma_registry_map_last(s.drop_last(), k, i);
    }
}

/// A key no entry holds is absent from the mapping.
proof fn lemma_registry_map_absent(s: Seq<(String, Executor)>, k: Seq<char>)
    requires
        forall|j: int| 0 <= j < s.len() ==> s[j].0@ != k,
    ensures
        !registry_map(s).contains_key(k),
    decreases s.len(),
{
    if s.len() > 0 {
        assert forall|j: int| 0 <= j < s.drop_last().len() implies s.drop_last()[j].0@ != k by {}
        lemma_registry_map_absent(s.drop_last(), k);
    }
}

impl Default for Executors {
    /// The registry holding the one built-in `echo` executor.
    fn default() -> (r: Self)
        ensures
            r@ == Map::<Seq<char>, Seq<char>>::empty().insert("echo"@, "echo {{payload}}"@),
    {
        let mut executors: Vec<(String, Executor)> = Vec::new();
        let ghost prev = executors@;
        executors.push(
            (String::from_str("echo"), Executor { command: String::from_str("echo {{payload}}") }),
        );
        proof {
            assert(executors@.drop_last() =~= prev);
            assert(registry_map(prev) == Map::<Seq<char>, Seq<char>>::empty());
        }
        Executors { executors }
    }
}

/// What the template engine produces for a given template and payload: the
/// rendered command line, or the template error it reports. A pure function
/// of the two strings.
pub uninterp spec fn rendered(template: Seq<char>, payload: Seq<char>) -> Result<Seq<char>, Seq<char>>;

/// Relies on handlebars (`Handlebars::new`, `register_template_string`,
/// `render`): registering a template fails exactly on a template syntax
/// error, and rendering a registered template is a pure function of the
/// template text and the data. The payload is handed to the template under
/// the key `payload`.
#[verifier::external_body]
fn render_template(template: &str, payload: &str) -> (r: Result<String, String>)
    ensures
        r matches Ok(s) ==> rendered(template@, payload@) matches Ok(v) && s@ == v,
        r matches Err(e) ==> rendered(template@, payload@) matches Err(v) && e@ == v,
{
    let mut registry = handlebars::Handlebars::new();
    if let Err(e) = registry.register_template_string("command", template) {
        return Err(format!("{}", e));
    }
    let mut data = std::collections::HashMap::new();
    data.insert("payload", payload);
    match registry.render("command", &data) {
        Ok(s) => Ok(s),
        Err(e) => Err(format!("{}", e)),
    }
}

/// Relies on duct (`cmd`, `stdout_capture`, `unchecked`, `run`): runs the
/// command line under `/bin/bash -c`, blocking until the process exits,
/// and hands back the captured stdout and the exit status, or the spawn
/// error. Nothing is assumed of the outcome: it depends on the machine.
#[verifier::external_body]
fn run_shell(command: &str) -> (r: Result<(String, Option<i32>), String>) {
    let expr = duct::cmd("/bin/bash", ["-c", command]).stdout_capture().unchecked();
    match expr.run() {
        Ok(out) => Ok((String::from_utf8_lossy(&out.stdout).into_owned(), out.status.code())),
        Err(e) => Err(format!("{}", e)),
    }
}

/// Outcome of one shell execution: the captured standard output, the
/// process exit status, and the failure detail if the command did not
/// succeed.
#[derive(Debug, Clone, PartialEq, Eq)]
pub struct ExecutionResult {
    pub stdout: String,
    pub exit_status: Option<i32>,
    pub error: Option<String>,
}

impl ExecutionResult {
    /// Packages a shell outcome: on a spawn that succeeded, the captured
    /// stdout and status, with the error field filled exactly when the exit
    /// status is not zero; on a spawn failure, the spawn error.
    pub fn from_shell_outcome(outcome: Result<(String, Option<i32>), String>) -> (r:
        ExecutionResult)
        ensures
            match outcome {
                Ok((out, status)) => r.stdout == out && r.exit_status == status && (r.error is None
                    <==> status == Some(0i32)),
                Err(e) => r.stdout@ == Seq::<char>::empty() && r.exit_status is None && r.error
                    == Some(e),
            },
    {
        match outcome {
            Ok((out, status)) => {
                let failed = match status {
                    Some(c) => c != 0,
                    None => true,
                };
                ExecutionResult {
                    stdout: out,
                    exit_status: status,
                    error: if failed {
                        Some(String::from_str("command exited with a non-zero status"))
                    } else {
                        None
                    },
                }
            },
            Err(e) => ExecutionResult { stdout: String::new(), exit_status: None, error: Some(e) },
        }
    }
}

/// Failure of the execution engine before a command could run.
#[derive(Debug, Clone, PartialEq, Eq)]
pub enum ExecutorExecuteError {
    /// The registry holds no executors at all: a configuration problem.
    NoAvailableExecutors,
    /// The request named an executor the registry does not hold.
    UnknownExecutor(String),
    /// The message could not be parsed into a request.
    ExecutorInputError(ExecutorInputError),
    /// The template engine rejected the executor's command template.
    TemplateError(String),
}

impl Executor {
    /// Renders this executor's command template with the given payload.
    pub fn prepare_command(&self, input: &str) -> (r: Result<String, ExecutorExecuteError>)
        ensures
            match rendered(self.command@, input@) {
                Ok(s) => r matches Ok(c) && c@ == s,
                Err(e) => r matches Err(ExecutorExecuteError::TemplateError(m)) && m@ == e,
            },
    {
        match render_template(self.command.as_str(), input) {
            Ok(c) => Ok(c),
            Err(e) => Err(ExecutorExecuteError::TemplateError(e)),
        }
    }

    /// Renders the template with the request's payload and runs the result
    /// as one shell command line. Execution failures (a non-zero exit, a
    /// spawn failure) are captured inside the `ExecutionResult`, not raised.
    pub fn execute(&self, input: ExecutorInput) -> (r: Result<
        ExecutionResult,
        ExecutorExecuteError,
    >)
        ensures
            match rendered(self.command@, input.input@) {
                Ok(_) => r matches Ok(res) && (res.error is None <==> res.exit_status == Some(
                    0i32,
                )),
                Err(e) => r matches Err(ExecutorExecuteError::TemplateError(m)) && m@ == e,
            },
    {
        let command = match self.prepare_command(input.input.as_str()) {
            Ok(c) => c,
            Err(e) => {
                return Err(e);
            },
        };
        let outcome = run_shell(command.as_str());
        Ok(ExecutionResult::from_shell_outcome(outcome))
    }
}

/// Exactly what running a chat message against a registry returns: the
/// engine fails with `NoAvailableExecutors` on an empty registry whatever
/// the message; otherwise it fails with the parser's error when the message
/// has none or a bad fenced block, fails with `UnknownExecutor` when the
/// named executor is absent, fails with `TemplateError` when its template
/// does not render, and otherwise hands back the captured execution
/// outcome, whose error field is set exactly when the exit status is not
/// zero.
pub open spec fn run_post(
    registry: Map<Seq<char>, Seq<char>>,
    message: Seq<char>,
    r: Result<ExecutionResult, ExecutorExecuteError>,
) -> bool {
    if registry == Map::<Seq<char>, Seq<char>>::empty() {
        r matches Err(ExecutorExecuteError::NoAvailableExecutors)
    } else {
        match extract_block_spec(message) {
            None => r matches Err(
                ExecutorExecuteError::ExecutorInputError(ExecutorInputError::NoCodeBlock(m)),
            ) && m@ == message,
            Some(b) => match parse_block_rest(b, Seq::empty(), Seq::empty()) {
                BlockParse::Parsed { name, input } => {
                    if registry.contains_key(name) {
                        match rendered(registry[name], input) {
                            Ok(_) => r matches Ok(res) && (res.error is None <==> res.exit_status
                                == Some(0i32)),
                            Err(e) => r matches Err(ExecutorExecuteError::TemplateError(m)) && m@
                                == e,
                        }
                    } else {
                        r matches Err(ExecutorExecuteError::UnknownExecutor(n)) && n@ == name
                    }
                },
                BlockParse::SplitFailure { line } => r matches Err(
                    ExecutorExecuteError::ExecutorInputError(
                        ExecutorInputError::ParseCodeBlockError(
                            ParseCodeBlockError::SplitFailure(l),
                        ),
                    ),
                ) && l@ == line,
                BlockParse::UnrecognizedDirective { key } => r matches Err(
                    ExecutorExecuteError::ExecutorInputError(
                        ExecutorInputError::ParseCodeBlockError(
                            ParseCodeBlockError::UnrecognizedDirective(k),
                        ),
                    ),
                ) && k@ == key,
            },
        }
    }
}

impl Executors {
    /// Builds the registry from `(name, command template)` pairs, as loaded
    /// from configuration; a later pair overrides an earlier one with the
    /// same name.
    pub fn new(entries: Vec<(String, String)>) -> (r: Executors)
        ensures
            r@ == pairs_map(entries@),
    {
        let mut executors: Vec<(String, Executor)> = Vec::new();
        let mut i: usize = 0;
        while i < entries.len()
            invariant
                i <= entries@.len(),
                registry_map(executors@) == pairs_map(entries@.take(i as int)),
            decreases entries@.len() - i,
        {
            let name = entries[i].0.clone();
            let command = entries[i].1.clone();
            let ghost prev = executors@;
            executors.push((name, Executor { command }));
            proof {
                assert(executors@.drop_last() =~= prev);
                assert(entries@.take(i as int + 1).drop_last() =~= entries@.take(i as int));
                assert(entries@.take(i as int + 1).last() == entries@[i as int]);
            }
            i += 1;
        }
        proof {
            assert(entries@.take(entries@.len() as int) =~= entries@);
        }
        Executors { executors }
    }

    /// Looks the named executor up in the registry.
    pub fn lookup(&self, name: &str) -> (r: Option<&Executor>)
        ensures
            match r {
                Some(e) => self@.contains_key(name@) && e.command@ == self@[name@],
                None => !self@.contains_key(name@),
            },
    {
        let mut i: usize = self.executors.len();
        while i > 0
            invariant
                i <= self.executors@.len(),
                forall|j: int| i <= j < self.executors@.len() ==> self.executors@[j].0@ != name@,
            decreases i,
    {
            i -= 1;
            if str_eq(self.executors[i].0.as_str(), name) {
                proof {
                    lemma_registry_map_last(self.executors@, name@, i as int);
                }
                return Some(&self.executors[i].1);
            }
        }
        proof {
            lemma_registry_map_absent(self.executors@, name@);
        }
        None
    }

    /// Resolves a chat message against the registry and runs the executor
    /// it names: fails fast on an empty registry, then parses the message,
    /// looks the named executor up, renders its template with the payload
    /// and runs the rendered command line.
    pub fn execute_from_slack_message(&self, message: &str) -> (r: Result<
        ExecutionResult,
        ExecutorExecuteError,
    >)
        ensures
            run_post(self@, message@, r),
    {
        if self.executors.len() == 0 {
            return Err(ExecutorExecuteError::NoAvailableExecutors);
        }
        proof {
            let s = self.executors@;
            assert(registry_map(s).contains_key(s.last().0@));
        }
        let input = match ExecutorInput::new_from_slack(message) {
            Ok(v) => v,
            Err(e) => {
                return Err(ExecutorExecuteError::ExecutorInputError(e));
            },
        };
        let executor = match self.lookup(input.name.as_str()) {
            Some(e) => e,
            None => {
                return Err(ExecutorExecuteError::UnknownExecutor(input.name));
            },
        };
        executor.execute(input)
    }
}

} // verus!
