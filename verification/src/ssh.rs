//! How SSH is called: the arguments of each call, the command line of the
//! remote shell, and what follows from how a call ended.

use vstd::prelude::*;

use crate::error::Error;
use crate::path::extension_set;
use crate::path::with_extension;
use crate::state::SshConfig;
use crate::text::decimal;
use crate::text::joined;
use crate::text::number;
use crate::text::push_all;
use crate::text::push_owned;
use crate::text::push_text;
use crate::text::replace;
use crate::text::replaced;
use crate::text::texts;
use crate::text::trim;
use crate::text::trimmed;

verus! {

/// How often a machine that does not answer yet is asked again.
pub const SSH_RETRY_MILLIS: u64 = 500;

/// What a remote command left behind: whether it succeeded, the code that it
/// ended with if no signal ended it, its status in words, and what it wrote.
#[derive(Debug, PartialEq, Eq)]
pub struct ExecOutput {
    pub success: bool,
    pub code: Option<i32>,
    pub status: String,
    pub stdout: String,
    pub stderr: String,
}

// ---------------------------------------------------------------------------
// Keys

/// Whether a key pair has to be made: where one of its two files is missing.
pub fn needs_ssh_key(has_private: bool, has_public: bool) -> (needed: bool)
    ensures
        needed == (!has_private || !has_public),
{
    !has_private || !has_public
}

/// Where the public key for `identity_file` is.
pub fn public_key_path(identity_file: &str) -> (path: String)
    ensures
        path@ == extension_set(identity_file@, "pub"@),
{
    with_extension(identity_file, "pub")
}

/// The arguments that make `ssh-keygen` write a key pair without asking.
pub fn keygen_args(identity_file: &str) -> (args: Vec<String>)
    ensures
        texts(args@) == seq![
            "-q"@,
            "-t"@,
            "ed25519"@,
            "-N"@,
            ""@,
            "-f"@,
            identity_file@,
            "-C"@,
            "hardpass"@,
        ],
{
    let mut args: Vec<String> = Vec::new();
    args.push("-q".to_owned());
    args.push("-t".to_owned());
    args.push("ed25519".to_owned());
    args.push("-N".to_owned());
    args.push("".to_owned());
    args.push("-f".to_owned());
    args.push(identity_file.to_owned());
    args.push("-C".to_owned());
    args.push("hardpass".to_owned());
    args
}

/// What follows from how `ssh-keygen` ended.
pub fn keygen_outcome(success: bool, stderr: &str) -> (result: Result<(), Error>)
    ensures
        match result {
            Ok(_) => success,
            Err(error) => !success && error.message@ == "ssh-keygen failed: "@ + trimmed(stderr@)
                && error.cause is None,
        },
{
    if success {
        Ok(())
    } else {
        Err(Error::new("ssh-keygen failed: ".to_owned().concat(trim(stderr).as_str())))
    }
}

/// The public key that a file with `content` holds.
pub fn public_key(content: &str) -> (key: String)
    ensures
        key@ == trimmed(content@),
{
    trim(content)
}

// ---------------------------------------------------------------------------
// Arguments

/// The arguments that every call has.
pub open spec fn common_args(config: SshConfig, batch_mode: bool) -> Seq<Seq<char>> {
    let args = seq![
        "-i"@,
        config.identity_file@,
        "-p"@,
        decimal(config.port as nat),
        "-o"@,
        "StrictHostKeyChecking=no"@,
        "-o"@,
        "UserKnownHostsFile=/dev/null"@,
        "-o"@,
        "IdentitiesOnly=yes"@,
        "-o"@,
        "LogLevel=ERROR"@,
    ];
    if batch_mode {
        args + seq!["-o"@, "BatchMode=yes"@]
    } else {
        args
    }
}

/// The arguments that every call has; with `batch_mode` SSH never asks.
pub fn common_ssh_args(config: &SshConfig, batch_mode: bool) -> (args: Vec<String>)
    ensures
        texts(args@) == common_args(*config, batch_mode),
{
    let mut args: Vec<String> = Vec::new();
    args.push("-i".to_owned());
    args.push(config.identity_file.clone());
    args.push("-p".to_owned());
    args.push(number(config.port as u64));
    args.push("-o".to_owned());
    args.push("StrictHostKeyChecking=no".to_owned());
    args.push("-o".to_owned());
    args.push("UserKnownHostsFile=/dev/null".to_owned());
    args.push("-o".to_owned());
    args.push("IdentitiesOnly=yes".to_owned());
    args.push("-o".to_owned());
    args.push("LogLevel=ERROR".to_owned());
    assert(texts(args@) =~= common_args(*config, false));
    if batch_mode {
        push_text(&mut args, "-o");
        push_text(&mut args, "BatchMode=yes");
        assert(texts(args@) =~= common_args(*config, true));
    }
    args
}

/// Whom a call goes to.
pub open spec fn target(config: SshConfig) -> Seq<char> {
    config.user@ + "@"@ + config.host@
}

fn render_target(config: &SshConfig) -> (text: String)
    ensures
        text@ == target(*config),
{
    config.user.as_str().to_owned().concat("@").concat(config.host.as_str())
}

/// The arguments of an interactive session.
pub fn session_args(config: &SshConfig, extra_args: &[String]) -> (args: Vec<String>)
    ensures
        texts(args@) == common_args(*config, false) + texts(extra_args@) + seq![target(*config)],
{
    let mut args = common_ssh_args(config, false);
    push_all(&mut args, extra_args);
    let ghost before = texts(args@);
    push_owned(&mut args, render_target(config));
    assert(texts(args@) =~= before + seq![target(*config)]);
    args
}

/// The arguments of a call that runs `command` on the machine.
pub fn exec_args(config: &SshConfig, command: &[String]) -> (args: Vec<String>)
    ensures
        texts(args@) == common_args(*config, true) + seq![
            target(*config),
            remote_command(texts(command@)),
        ],
{
    let mut args = common_ssh_args(config, true);
    let ghost before = texts(args@);
    push_owned(&mut args, render_target(config));
    push_owned(&mut args, render_remote_command(command));
    assert(texts(args@) =~= before + seq![target(*config), remote_command(texts(command@))]);
    args
}

/// The arguments of the call that asks whether the machine answers.
pub fn probe_args(config: &SshConfig) -> (args: Vec<String>)
    ensures
        texts(args@) == common_args(*config, true) + seq![
            "-o"@,
            "ConnectTimeout=2"@,
            target(*config),
            "true"@,
        ],
{
    let mut args = common_ssh_args(config, true);
    let ghost before = texts(args@);
    push_text(&mut args, "-o");
    push_text(&mut args, "ConnectTimeout=2");
    push_owned(&mut args, render_target(config));
    push_text(&mut args, "true");
    assert(texts(args@) =~= before + seq!["-o"@, "ConnectTimeout=2"@, target(*config), "true"@]);
    args
}

// ---------------------------------------------------------------------------
// Outcomes

/// What to do after a machine was asked whether it answers.
#[derive(Debug, PartialEq, Eq)]
pub enum WaitStep {
    /// It answers.
    Ready,
    /// Ask again after so many milliseconds.
    Retry(u64),
    /// It had its time.
    GiveUp(Error),
}

/// What to do after a machine was asked whether it answers: `failure` says
/// why it did not, and `in_time` that its time is not over.
pub fn wait_for_ssh(failure: Option<Error>, in_time: bool) -> (step: WaitStep)
    ensures
        step == (match failure {
            None => WaitStep::Ready,
            Some(error) => if in_time {
                WaitStep::Retry(SSH_RETRY_MILLIS)
            } else {
                WaitStep::GiveUp(error)
            },
        }),
{
    match failure {
        None => WaitStep::Ready,
        Some(error) => if in_time {
            WaitStep::Retry(SSH_RETRY_MILLIS)
        } else {
            WaitStep::GiveUp(error)
        },
    }
}

/// What follows from how the call ended that asks whether a machine answers.
pub fn ssh_status(success: bool) -> (result: Result<(), Error>)
    ensures
        match result {
            Ok(_) => success,
            Err(error) => !success && error.message@ == "ssh not ready yet"@ && error.cause is None,
        },
{
    if success {
        Ok(())
    } else {
        Err(Error::new("ssh not ready yet".to_owned()))
    }
}

/// What follows from how an interactive session ended.
pub fn open_session(success: bool, status: &str) -> (result: Result<(), Error>)
    ensures
        match result {
            Ok(_) => success,
            Err(error) => !success && error.message@ == "ssh exited with status "@ + status@
                && error.cause is None,
        },
{
    if success {
        Ok(())
    } else {
        Err(Error::new("ssh exited with status ".to_owned().concat(status)))
    }
}

/// What is said where a remote command failed.
pub open spec fn remote_failure(output: ExecOutput) -> Seq<char> {
    "remote command exited with status "@ + output.status@
}

/// What follows from how a remote command ended, once its output was shown.
pub fn exec(output: &ExecOutput) -> (result: Result<(), Error>)
    ensures
        match result {
            Ok(_) => output.success,
            Err(error) => !output.success && error.message@ == remote_failure(*output)
                && error.cause is None,
        },
{
    if output.success {
        Ok(())
    } else {
        Err(
            Error::new(
                "remote command exited with status ".to_owned().concat(output.status.as_str()),
            ),
        )
    }
}

/// The output of a remote command, if it succeeded.
pub fn exec_checked(output: ExecOutput) -> (result: Result<ExecOutput, Error>)
    ensures
        match result {
            Ok(same) => output.success && same == output,
            Err(error) => !output.success && error.message@ == remote_failure(output)
                && error.cause is None,
        },
{
    match exec(&output) {
        Ok(_) => Ok(output),
        Err(error) => Err(error),
    }
}

// ---------------------------------------------------------------------------
// The remote shell

/// How a single quote is written inside single quotes: they are ended, the
/// quote stands in double quotes, and they begin again.
pub open spec fn quote_escape() -> Seq<char> {
    "'\"'\"'"@
}

/// `arg` as one word of a shell.
pub open spec fn quoted(arg: Seq<char>) -> Seq<char> {
    "'"@ + replaced(arg, '\'', quote_escape()) + "'"@
}

/// The words of `command`, each quoted.
pub open spec fn quoted_words(command: Seq<Seq<char>>) -> Seq<Seq<char>> {
    command.map_values(|arg: Seq<char>| quoted(arg))
}

/// `command` as a shell reads it.
pub open spec fn remote_command(command: Seq<Seq<char>>) -> Seq<char> {
    joined(quoted_words(command), " "@)
}

/// Quotes `arg` for a shell.
pub fn shell_quote(arg: &str) -> (text: String)
    ensures
        text@ == quoted(arg@),
{
    "'".to_owned().concat(replace(arg, '\'', "'\"'\"'").as_str()).concat("'")
}

/// Quotes `command` for a shell.
pub fn render_remote_command(command: &[String]) -> (text: String)
    ensures
        text@ == remote_command(texts(command@)),
{
    let mut words: Vec<String> = Vec::new();
    for i in 0..command.len()
        invariant
            texts(words@) == quoted_words(texts(command@)).take(i as int),
    {
        let ghost all = quoted_words(texts(command@));
        push_owned(&mut words, shell_quote(command[i].as_str()));
        assert(all.take(i + 1) =~= all.take(i as int).push(all[i as int]));
    }
    assert(texts(words@) =~= quoted_words(texts(command@)));
    crate::text::join(&words, " ")
}

/// The characters that a shell does not take as they are in double quotes.
pub open spec fn is_live(c: char) -> bool {
    c == '$' || c == '`' || c == '\\' || c == '!'
}

/// `word` with `c` added.
pub open spec fn extended(word: Option<Seq<char>>, c: char) -> Option<Seq<char>> {
    match word {
        Some(word) => Some(word.push(c)),
        None => Some(seq![c]),
    }
}

/// `word`, begun if it was not.
pub open spec fn begun(word: Option<Seq<char>>) -> Option<Seq<char>> {
    match word {
        Some(word) => Some(word),
        None => Some(Seq::empty()),
    }
}

/// `words` with the word that was being read.
pub open spec fn with_word(words: Seq<Seq<char>>, word: Option<Seq<char>>) -> Seq<Seq<char>> {
    match word {
        Some(word) => words.push(word),
        None => words,
    }
}

/// The words that a shell reads in `s` without expanding anything: `quote` is
/// the quote that is open, `word` the word that is being read, and `words`
/// those before it. There are none where `s` holds what a shell would expand,
/// or ends within quotes.
pub open spec fn shell_words(
    s: Seq<char>,
    quote: Option<char>,
    word: Option<Seq<char>>,
    words: Seq<Seq<char>>,
) -> Option<Seq<Seq<char>>>
    decreases s.len(),
{
    if s.len() == 0 {
        if quote is Some {
            None
        } else {
            Some(with_word(words, word))
        }
    } else {
        let c = s.first();
        let rest = s.drop_first();
        match quote {
            Some(q) => if c == q {
                shell_words(rest, None, word, words)
            } else if q == '"' && is_live(c) {
                None
            } else {
                shell_words(rest, quote, extended(word, c), words)
            },
            None => if c == '\'' || c == '"' {
                shell_words(rest, Some(c), begun(word), words)
            } else if c == ' ' {
                shell_words(rest, None, None, with_word(words, word))
            } else {
                None
            },
        }
    }
}

proof fn lemma_quoted_inside(
    arg: Seq<char>,
    rest: Seq<char>,
    word: Seq<char>,
    words: Seq<Seq<char>>,
)
    ensures
        shell_words(
            replaced(arg, '\'', quote_escape()) + rest,
            Some('\''),
            Some(word),
            words,
        ) == shell_words(rest, Some('\''), Some(word + arg), words),
    decreases arg.len(),
{
    let inside = replaced(arg, '\'', quote_escape());
    if arg.len() == 0 {
        assert(inside + rest =~= rest);
        assert(word + arg =~= word);
    } else {
        reveal_strlit("'\"'\"'");
        let front = arg.drop_last();
        let c = arg.last();
        let before = replaced(front, '\'', quote_escape());
        if c == '\'' {
            let tail = quote_escape() + rest;
            lemma_quoted_inside(front, tail, word, words);
            assert(inside + rest =~= before + tail);
            let t1 = tail.drop_first();
            let t2 = t1.drop_first();
            let t3 = t2.drop_first();
            let t4 = t3.drop_first();
            assert(t4.drop_first() =~= rest);
            assert(tail.first() == '\'' && t1.first() == '"' && t2.first() == '\'' && t3.first()
                == '"' && t4.first() == '\'');
            let w = Some(word + front);
            assert(shell_words(tail, Some('\''), w, words) == shell_words(t1, None, w, words));
            assert(shell_words(t1, None, w, words) == shell_words(t2, Some('"'), w, words));
            let v = Some((word + front).push('\''));
            assert(shell_words(t2, Some('"'), w, words) == shell_words(t3, Some('"'), v, words));
            assert(shell_words(t3, Some('"'), v, words) == shell_words(t4, None, v, words));
            assert(shell_words(t4, None, v, words) == shell_words(rest, Some('\''), v, words));
            assert((word + front).push('\'') =~= word + arg);
        } else {
            let tail = seq![c] + rest;
            lemma_quoted_inside(front, tail, word, words);
            assert(inside + rest =~= before + tail);
            assert(tail.drop_first() =~= rest);
            assert((word + front).push(c) =~= word + arg);
        }
    }
}

proof fn lemma_quoted(arg: Seq<char>, rest: Seq<char>, words: Seq<Seq<char>>)
    ensures
        shell_words(quoted(arg) + rest, None, None, words) == shell_words(
            rest,
            None,
            Some(arg),
            words,
        ),
{
    reveal_strlit("'");
    let inside = replaced(arg, '\'', quote_escape());
    let all = quoted(arg) + rest;
    let end = "'"@ + rest;
    assert(all.first() == '\'');
    assert(all.drop_first() =~= inside + end);
    lemma_quoted_inside(arg, end, Seq::empty(), words);
    assert(Seq::<char>::empty() + arg =~= arg);
    assert(end.drop_first() =~= rest);
    assert(end.first() == '\'');
}

proof fn lemma_remote(command: Seq<Seq<char>>, rest: Seq<char>, words: Seq<Seq<char>>)
    requires
        command.len() > 0,
    ensures
        shell_words(remote_command(command) + rest, None, None, words) == shell_words(
            rest,
            None,
            Some(command.last()),
            words + command.drop_last(),
        ),
    decreases command.len(),
{
    let all = quoted_words(command);
    let last = command.last();
    if command.len() == 1 {
        assert(all[0] == quoted(last));
        lemma_quoted(last, rest, words);
        assert(words + command.drop_last() =~= words);
    } else {
        reveal_strlit(" ");
        let front = command.drop_last();
        assert(all.drop_last() =~= quoted_words(front));
        assert(all.last() == quoted(last));
        let tail = " "@ + quoted(last) + rest;
        lemma_remote(front, tail, words);
        assert(remote_command(command) + rest =~= remote_command(front) + tail);
        assert(tail.first() == ' ');
        assert(tail.drop_first() =~= quoted(last) + rest);
        assert((words + front.drop_last()).push(front.last()) =~= words + front);
        lemma_quoted(last, rest, words + front);
    }
}

/// A shell reads back exactly the arguments of a rendered command, whatever
/// they hold, empty ones and quotes not excepted.
pub proof fn law_remote_command_round_trip(command: Seq<Seq<char>>)
    ensures
        shell_words(remote_command(command), None, None, Seq::empty()) == Some(command),
{
    let none = Seq::<Seq<char>>::empty();
    if command.len() == 0 {
        assert(remote_command(command).len() == 0);
        assert(none =~= command);
    } else {
        lemma_remote(command, Seq::empty(), none);
        assert(remote_command(command) + Seq::<char>::empty() =~= remote_command(command));
        assert((none + command.drop_last()).push(command.last()) =~= command);
    }
}

} // verus!
