//! The account inside the machine.

use vstd::prelude::*;
use vstd::string::*;
use vstd::utf8::is_ascii_chars;

use crate::names::{ascii_lower, expand, expanded};
use crate::process::{captured, text_result, CommandLine, CommandView, Outcome};
use crate::text::{
    all_of, chars_of, has_text, law_trim, lemma_five_pieces, lemma_trim_end, lemma_trim_end_rest, opt_text, same_text, string_of, texts, trim_end, trim_tail,
    trim_white, trimmed, Pattern,
};

verus! {

/// Trusted: what `str::to_lowercase` makes of a text.
pub uninterp spec fn lowered(s: Seq<char>) -> Seq<char>;

/// Trusted: `str::to_lowercase`, the lowercase equivalent of a text by Unicode's
/// rules, which depends on the text alone. It holds no ASCII capital letter, and
/// of ASCII text each letter is replaced by its lower-case letter.
#[verifier::external_body]
pub(crate) fn to_lowercase(s: &str) -> (r: String)
    ensures
        r@ == lowered(s@),
        forall|i: int| 0 <= i < r@.len() ==> !('A' <= #[trigger] r@[i] <= 'Z'),
        is_ascii_chars(s@) ==> r@ == ascii_lowered(s@),
{
    s.to_lowercase()
}

/// An ASCII letter or digit.
pub open spec fn is_alphanumeric(c: char) -> bool {
    ||| 'a' <= c <= 'z'
    ||| 'A' <= c <= 'Z'
    ||| '0' <= c <= '9'
}

/// A text in which every character but ASCII letters, digits and the one that is
/// kept has become a hyphen.
pub open spec fn hyphenated(s: Seq<char>, kept: char) -> Seq<char> {
    Seq::new(
        s.len(),
        |i: int|
            if is_alphanumeric(s[i]) || s[i] == kept {
                s[i]
            } else {
                '-'
            },
    )
}

/// The first `limit` characters of a text, or all of a shorter one.
pub open spec fn shortened(s: Seq<char>, limit: nat) -> Seq<char> {
    if s.len() <= limit {
        s
    } else {
        s.take(limit as int)
    }
}

/// A text in which every character but ASCII letters, digits and the one that is
/// kept has become a hyphen.
pub(crate) fn hyphenate(s: &str, kept: char) -> (r: String)
    ensures
        r@ == hyphenated(s@, kept),
{
    let v = chars_of(s);
    let mut out = String::new();
    let mut i: usize = 0;
    while i < v.len()
        invariant
            v@ == s@,
            i <= v@.len(),
            out@ == hyphenated(s@, kept).take(i as int),
        decreases v@.len() - i,
    {
        let c = v[i];
        let keep = ('a' <= c && c <= 'z') || ('A' <= c && c <= 'Z') || ('0' <= c && c <= '9') || c
            == kept;
        out.push(if keep {
            c
        } else {
            '-'
        });
        i += 1;
    }
    assert(hyphenated(s@, kept).take(i as int) =~= hyphenated(s@, kept));
    out
}

/// The first `limit` characters of a text, or all of a shorter one.
pub(crate) fn shorten(s: &str, limit: usize) -> (r: String)
    ensures
        r@ == shortened(s@, limit as nat),
{
    let v = chars_of(s);
    let n = if v.len() <= limit {
        v.len()
    } else {
        limit
    };
    let out = string_of(&v, 0, n);
    assert(out@ =~= shortened(s@, limit as nat));
    out
}

/// The longest account name that Linux's `useradd` takes.
pub const ACCOUNT_LIMIT: usize = 32;

/// The account name that a user name in lower case gives: with a hyphen for every
/// character outside `[a-z0-9_]`, cut to what `useradd` takes and without hyphens
/// at its end.
pub open spec fn account_of(low: Seq<char>) -> Seq<char> {
    trim_end(shortened(hyphenated(low, '_'), ACCOUNT_LIMIT as nat), Pattern::Is('-'))
}

/// The account name that a user name gives: trimmed and in lower case first.
pub open spec fn account(raw: Seq<char>) -> Seq<char> {
    account_of(lowered(trimmed(raw)))
}

/// ASCII text in lower case.
pub open spec fn ascii_lowered(s: Seq<char>) -> Seq<char> {
    Seq::new(s.len(), |i: int| ascii_lower(s[i]))
}

/// Can the machine have an account of that name? It must start with a letter or
/// an underscore, and `root` is taken.
pub open spec fn usable(name: Seq<char>) -> bool {
    &&& name.len() > 0
    &&& name != "root"@
    &&& 'a' <= name[0] <= 'z' || name[0] == '_'
}

/// What every account name that comes out of [`guest_user`] is like: up to 32
/// characters of `[a-z0-9_-]`, a letter or an underscore first, no hyphen last,
/// and not `root`.
pub open spec fn is_account_name(name: Seq<char>) -> bool {
    &&& usable(name)
    &&& name.len() <= ACCOUNT_LIMIT
    &&& name.last() != '-'
    &&& forall|i: int| 0 <= i < name.len() ==> account_char(#[trigger] name[i])
}

/// A character of an account name.
pub open spec fn account_char(c: char) -> bool {
    ||| 'a' <= c <= 'z'
    ||| '0' <= c <= '9'
    ||| c == '_'
    ||| c == '-'
}

/// Where a user name comes from.
#[derive(Clone, Copy)]
pub enum UserSource {
    /// The environment variable that names the account.
    Variable,
    /// The user who runs the tool.
    Login,
}

impl UserSource {
    /// The source as a message names it.
    pub open spec fn text(self) -> Seq<char> {
        match self {
            UserSource::Variable => "CLAUDE_SANDBOX_USER"@,
            UserSource::Login => "your username"@,
        }
    }

    /// The source as a message names it.
    pub fn name(self) -> (r: String)
        ensures
            r@ == self.text(),
    {
        match self {
            UserSource::Variable => "CLAUDE_SANDBOX_USER".to_owned(),
            UserSource::Login => "your username".to_owned(),
        }
    }
}

/// Why a user name cannot be used, in words.
pub open spec fn unusable_message(raw: Seq<char>, source: UserSource) -> Seq<char> {
    "cannot use "@ + source.text() + " (\""@ + trimmed(raw) + expand(
        "\") as the account name inside the VM: it must start with a letter or underscore, and cannot be root.\n  pick one explicitly:  CLAUDE_SANDBOX_USER=<name> @ <dir>"@,
    )
}

/// The account name that a user name in lower case gives, if the machine can have
/// an account of that name.
pub fn account_name(low: &str) -> (r: Option<String>)
    ensures
        match r {
            Some(name) => usable(account_of(low@)) && name@ == account_of(low@),
            None => !usable(account_of(low@)),
        },
{
    let whole = hyphenate(low, '_');
    let short = shorten(whole.as_str(), ACCOUNT_LIMIT);
    let name = trim_tail(short.as_str(), Pattern::Is('-'));
    let v = chars_of(name.as_str());
    if v.len() > 0 && (('a' <= v[0] && v[0] <= 'z') || v[0] == '_') && !same_text(
        name.as_str(),
        "root",
    ) {
        Some(name)
    } else {
        None
    }
}

/// A usable account name that comes of a text without ASCII capitals is one that
/// Linux takes.
pub proof fn lemma_account_name(low: Seq<char>)
    requires
        forall|i: int| 0 <= i < low.len() ==> !('A' <= #[trigger] low[i] <= 'Z'),
        usable(account_of(low)),
    ensures
        is_account_name(account_of(low)),
{
    let whole = hyphenated(low, '_');
    let short = shortened(whole, ACCOUNT_LIMIT as nat);
    let name = account_of(low);
    lemma_trim_end(short, Pattern::Is('-'));
    assert forall|i: int| 0 <= i < name.len() implies account_char(#[trigger] name[i]) by {
        assert(name[i] == short[i]);
        assert(short[i] == whole[i]);
        assert(!('A' <= low[i] <= 'Z'));
    }
}

/// The account created inside the machine, and the name that ssh logs in as, or
/// why the user name gives none.
pub fn guest_user(raw: &str, source: UserSource) -> (r: Result<String, String>)
    ensures
        match r {
            Ok(name) => {
                &&& usable(account(raw@))
                &&& name@ == account(raw@)
                &&& is_account_name(name@)
            },
            Err(message) => {
                &&& !usable(account(raw@))
                &&& message@ == unusable_message(raw@, source)
            },
        },
        is_ascii_chars(trimmed(raw@)) ==> account(raw@) == account_of(
            ascii_lowered(trimmed(raw@)),
        ),
{
    let bare = trim_white(raw);
    let low = to_lowercase(bare.as_str());
    match account_name(low.as_str()) {
        Some(name) => {
            proof {
                lemma_account_name(low@);
            }
            Ok(name)
        },
        None => Err(
            "cannot use ".to_owned().concat(source.name().as_str()).concat(" (\"").concat(
                bare.as_str(),
            ).concat(
                expanded(
                    "\") as the account name inside the VM: it must start with a letter or underscore, and cannot be root.\n  pick one explicitly:  CLAUDE_SANDBOX_USER=<name> @ <dir>",
                ).as_str(),
            ),
        ),
    }
}

/// The user who runs the tool as the environment names them: `USER`, or `LOGNAME`
/// where that is unset or blank. `None`: the environment names nobody, and the
/// system has to be asked.
pub open spec fn known_user(
    user: Option<Seq<char>>,
    logname: Option<Seq<char>>,
) -> Option<Seq<char>> {
    match (user, logname) {
        (Some(u), _) if trimmed(u).len() > 0 => Some(u),
        (_, Some(l)) if trimmed(l).len() > 0 => Some(l),
        _ => None,
    }
}

/// The user who runs the tool as the environment names them.
pub fn host_user(user: Option<String>, logname: Option<String>) -> (r: Option<String>)
    ensures
        opt_text(r) == known_user(opt_text(user), opt_text(logname)),
{
    if let Some(u) = user {
        if !trim_white(u.as_str()).as_str().is_empty() {
            return Some(u);
        }
    }
    if let Some(l) = logname {
        if !trim_white(l.as_str()).as_str().is_empty() {
            return Some(l);
        }
    }
    None
}

/// The user name that the account is named after, and where it comes from: the variable
/// that names the account, even where it is blank, and otherwise the user who runs the
/// tool. `None`: nothing names one, and the system has to be asked.
pub fn account_source(
    variable: Option<String>,
    user: Option<String>,
    logname: Option<String>,
) -> (r: Option<(String, UserSource)>)
    ensures
        match r {
            Some((name, source)) => match variable {
                Some(v) => name@ == v@ && source == UserSource::Variable,
                None => known_user(opt_text(user), opt_text(logname)) == Some(name@) && source
                    == UserSource::Login,
            },
            None => variable is None && known_user(opt_text(user), opt_text(logname)) is None,
        },
{
    match variable {
        Some(v) => Some((v, UserSource::Variable)),
        None => match host_user(user, logname) {
            Some(name) => Some((name, UserSource::Login)),
            None => None,
        },
    }
}

/// The command that asks the system who runs the tool.
pub open spec fn id() -> CommandView {
    CommandView { program: "id"@, args: seq!["-un"@] }
}

/// The command that asks the system who runs the tool.
pub fn id_command() -> (r: CommandLine)
    ensures
        r@ == id(),
{
    let args = vec!["-un".to_owned()];
    assert(texts(args@) =~= seq!["-un"@]);
    CommandLine { program: "id".to_owned(), args: args }
}

/// What is said where the system does not know either.
pub const WHO_ARE_YOU: &'static str = "cannot tell who you are: neither $USER nor $LOGNAME is set and `id -un` failed.\n  set the VM account name explicitly with CLAUDE_SANDBOX_USER";

/// The user as the system names them, by how the command that asks it ended.
pub fn system_user(outcome: &Outcome) -> (r: Result<String, String>)
    ensures
        text_result(r) == match captured(id(), *outcome) {
            Ok(answer) => Ok(trimmed(answer)),
            Err(why) => Err(WHO_ARE_YOU@ + ": "@ + why),
        },
{
    match id_command().capture(outcome) {
        Ok(answer) => Ok(trim_white(answer.as_str())),
        Err(why) => Err(WHO_ARE_YOU.to_owned().concat(": ").concat(why.as_str())),
    }
}

/// The account name that a user name in lower case gives, character by character: letters,
/// digits and underscores stay, and all else becomes a hyphen; it is cut at 32 characters,
/// and only hyphens at its end go.
pub proof fn law_account_of(low: Seq<char>)
    ensures
        ({
            let name = account_of(low);
            &&& name.len() <= 32
            &&& name.len() <= low.len()
            &&& name.len() > 0 ==> name.last() != '-'
            &&& forall|i: int|
                0 <= i < name.len() ==> #[trigger] name[i] == if is_alphanumeric(low[i]) || low[i]
                    == '_' {
                    low[i]
                } else {
                    '-'
                }
            &&& forall|i: int|
                name.len() <= i < low.len() && i < 32 ==> !is_alphanumeric(#[trigger] low[i])
                    && low[i] != '_'
        }),
{
    let whole = hyphenated(low, '_');
    let short = shortened(whole, 32);
    let name = account_of(low);
    let hyphen = Pattern::Is('-');
    lemma_trim_end(short, hyphen);
    lemma_trim_end_rest(short, hyphen);
    assert forall|i: int| 0 <= i < name.len() implies #[trigger] name[i] == if is_alphanumeric(
        low[i],
    ) || low[i] == '_' {
        low[i]
    } else {
        '-'
    } by {
        assert(name[i] == short[i]);
        assert(short[i] == whole[i]);
    }
    assert forall|i: int| name.len() <= i < low.len() && i < 32 implies !is_alphanumeric(
        #[trigger] low[i],
    ) && low[i] != '_' by {
        assert(short[i] == whole[i]);
        assert(hyphen.covers(short[i]));
    }
}

/// ASCII letters and digits, and what they are in lower case.
pub proof fn law_letters(c: char, s: Seq<char>)
    ensures
        is_alphanumeric(c) <==> 'a' <= c <= 'z' || 'A' <= c <= 'Z' || '0' <= c <= '9',
        ascii_lowered(s).len() == s.len(),
        forall|i: int|
            0 <= i < s.len() ==> #[trigger] ascii_lowered(s)[i] == ascii_lower(s[i]),
{
}

/// The white space around a user name does not matter.
pub proof fn law_account_is_trimmed(a: Seq<char>, raw: Seq<char>, b: Seq<char>)
    requires
        all_of(a, Pattern::White),
        all_of(b, Pattern::White),
        raw.len() > 0 ==> !Pattern::White.covers(raw[0]) && !Pattern::White.covers(raw.last()),
    ensures
        account(a + raw + b) == account_of(lowered(raw)),
{
    law_trim(a, raw, b, Pattern::White);
}

/// A name can be used exactly if it starts with a small letter or an underscore and is not
/// `root`.
pub proof fn law_usable(name: Seq<char>)
    ensures
        usable(name) <==> name.len() > 0 && name != "root"@ && ('a' <= name[0] <= 'z' || name[0]
            == '_'),
{
}

/// `USER` goes before `LOGNAME`, as it stands, unless it is blank; where both are blank or
/// unset, nobody is named.
pub proof fn law_who_is_named(user: Seq<char>, logname: Seq<char>, other: Option<Seq<char>>)
    ensures
        trimmed(user).len() > 0 ==> known_user(Some(user), other) == Some(user),
        trimmed(user).len() == 0 && trimmed(logname).len() > 0 ==> known_user(
            Some(user),
            Some(logname),
        ) == Some(logname),
        trimmed(logname).len() > 0 ==> known_user(None, Some(logname)) == Some(logname),
        trimmed(user).len() == 0 && trimmed(logname).len() == 0 ==> known_user(
            Some(user),
            Some(logname),
        ) is None && known_user(Some(user), None) is None && known_user(None, Some(logname))
            is None,
        known_user(None, None) is None,
{
}

/// What is said of a user name that cannot be used shows it, and where it comes from.
pub proof fn law_unusable_name_is_shown(raw: Seq<char>, source: UserSource)
    ensures
        has_text(unusable_message(raw, source), trimmed(raw)),
        has_text(unusable_message(raw, source), source.text()),
        UserSource::Variable.text() == "CLAUDE_SANDBOX_USER"@,
        UserSource::Login.text() == "your username"@,
        id().program == "id"@,
        id().args == seq!["-un"@],
{
    let end = expand(
        "\") as the account name inside the VM: it must start with a letter or underscore, and cannot be root.\n  pick one explicitly:  CLAUDE_SANDBOX_USER=<name> @ <dir>"@,
    );
    lemma_five_pieces("cannot use "@, source.text(), " (\""@, trimmed(raw), end);
}

} // verus!
