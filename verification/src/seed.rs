//! What the agent inside the machine starts with: its credentials, and a few entries of
//! the user's own configuration.
//!
//! They are copied, one way, into a directory of their own, which the machines mount. A
//! link that a machine put there is removed before anything is written in its place, and
//! never written through.

use vstd::prelude::*;
use vstd::string::*;

use crate::json::{as_u64, json_text, key, parse, Json, JsonView};
use crate::names::{
    agent, agent_caps, agent_title, expand, expanded, lemma_expand_around, lemma_tool, tool,
    ENV_PREFIX,
};
use crate::path::{join, join_path};
use crate::process::{captured, CommandLine, CommandView, Outcome};
use crate::sandbox::{Sandbox, SandboxView};
use crate::services::{warning, warning_text};
use crate::text::{
    all_of, ends, law_pieces, law_trim_end, lemma_find_is, starts, texts, trim_end, trim_tail,
    Pattern,
};

verus! {

/// When the token in a credentials document expires, in milliseconds since the epoch; 0
/// where it does not say. The token may stand at the top or under a member of its own.
pub open spec fn expiry(doc: JsonView) -> u64 {
    let node = match doc.member("claudeAiOauth"@) {
        Some(inner) => inner,
        None => doc,
    };
    match node.key("expiresAt"@).number() {
        Some(at) => at,
        None => 0,
    }
}

/// When the token in a credentials text expires; 0 where the text cannot be read, so that
/// any real token is newer.
pub open spec fn expiry_text(text: Seq<char>) -> u64 {
    match json_text(text) {
        Ok(doc) => expiry(doc),
        Err(_) => 0,
    }
}

/// When the token in a credentials document expires.
pub fn expiry_in(doc: &Json) -> (r: u64)
    ensures
        r == expiry(doc@),
{
    let node = match doc.get("claudeAiOauth") {
        Some(inner) => inner,
        None => doc,
    };
    match as_u64(key(Some(node), "expiresAt")) {
        Some(at) => at,
        None => 0,
    }
}

/// When the token in a credentials text expires.
pub fn token_expiry(text: &str) -> (r: u64)
    ensures
        r == expiry_text(text@),
{
    match parse(text) {
        Ok(doc) => expiry_in(&doc),
        Err(_) => 0,
    }
}

/// Is the machines' copy of the credentials replaced by the host's? Both sides refresh
/// their tokens on their own: unless it is asked for, only one that lives longer replaces
/// another.
pub open spec fn replaced(force: bool, present: bool, theirs: u64, ours: u64) -> bool {
    force || !present || theirs < ours
}

/// Decides whether the machines' copy of the credentials is replaced by the host's.
/// `present` says whether there is a copy, `theirs` when the token in it expires, and
/// `ours` when the host's does.
pub fn replaces(force: bool, present: bool, theirs: u64, ours: u64) -> (r: bool)
    ensures
        r == replaced(force, present, theirs, ours),
{
    force || !present || theirs < ours
}

/// What is done about the credentials.
pub enum SeedingView {
    Keep,
    Warn(Seq<char>),
    Write { unlink: bool, content: Seq<char>, message: Seq<char> },
}

/// What is done about the credentials.
pub enum Seeding {
    /// Nothing.
    Keep,
    /// That is said.
    Warn(String),
    /// That is written as the machines' copy, and that is said then. What stands in its
    /// place is removed first where it is a link.
    Write { unlink: bool, content: String, message: String },
}

impl View for Seeding {
    type V = SeedingView;

    open spec fn view(&self) -> SeedingView {
        match *self {
            Seeding::Keep => SeedingView::Keep,
            Seeding::Warn(text) => SeedingView::Warn(text@),
            Seeding::Write { unlink, content, message } => SeedingView::Write {
                unlink: unlink,
                content: content@,
                message: message@,
            },
        }
    }
}

/// What is said where there are no credentials to be had.
pub const NO_CREDENTIALS: &'static str = "no & Code credentials in the login keychain; run `% login` inside the VM (or on the host first)";

/// The command that reads the host's credentials out of the keychain.
pub open spec fn keychain() -> CommandView {
    CommandView {
        program: "security"@,
        args: seq!["find-generic-password"@, "-s"@, expand("& Code-credentials"@), "-w"@],
    }
}

/// The command that reads the host's credentials out of the keychain.
pub fn keychain_command() -> (r: CommandLine)
    ensures
        r@ == keychain(),
{
    let args = vec![
        "find-generic-password".to_owned(),
        "-s".to_owned(),
        expanded("& Code-credentials"),
        "-w".to_owned(),
    ];
    assert(texts(args@) =~= keychain().args);
    CommandLine { program: "security".to_owned(), args: args }
}

/// What is done about the credentials, where the machines' copy is at `dest`.
pub open spec fn seeding(
    dest: Seq<char>,
    keychain: Result<Seq<char>, Seq<char>>,
    present: bool,
    linked: bool,
    force: bool,
    theirs: Seq<char>,
) -> SeedingView {
    match keychain {
        Ok(ours) => if replaced(force, present, expiry_text(theirs), expiry_text(ours)) {
            SeedingView::Write {
                unlink: linked,
                content: trim_end(ours, Pattern::White),
                message: expand("seeded & credentials into "@) + dest,
            }
        } else {
            SeedingView::Keep
        },
        Err(_) => if present {
            SeedingView::Keep
        } else {
            SeedingView::Warn(warning_text(expand(NO_CREDENTIALS@)))
        },
    }
}

/// What the entries of a list hold.
pub open spec fn entries(list: Seq<Seed>) -> Seq<SeedView> {
    Seq::new(list.len(), |i: int| list[i]@)
}

/// What a [`Seed`] says.
pub struct SeedView {
    pub name: Seq<char>,
    pub from: Seq<char>,
    pub to: Seq<char>,
}

/// An entry of the user's configuration that is copied if it exists.
pub struct Seed {
    /// What it is called.
    pub name: String,
    /// Where it is.
    pub from: String,
    /// Where it is copied to.
    pub to: String,
}

impl View for Seed {
    type V = SeedView;

    open spec fn view(&self) -> SeedView {
        SeedView { name: self.name@, from: self.from@, to: self.to@ }
    }
}

/// The entries of the user's configuration that the machines get. All else, such as
/// transcripts, history and settings of the host alone, stays behind.
pub open spec fn seeded_names() -> Seq<Seq<char>> {
    seq![
        "settings.json"@,
        expand("^.md"@),
        "agents"@,
        "commands"@,
        "skills"@,
        "output-styles"@,
        "plugins"@,
    ]
}

/// The entries of the user's configuration that the machines get.
pub fn seeded_entries() -> (r: Vec<String>)
    ensures
        texts(r@) == seeded_names(),
{
    let r = vec![
        "settings.json".to_owned(),
        expanded("^.md"),
        "agents".to_owned(),
        "commands".to_owned(),
        "skills".to_owned(),
        "output-styles".to_owned(),
        "plugins".to_owned(),
    ];
    assert(texts(r@) =~= seeded_names());
    r
}

impl SandboxView {
    /// Where the machines' copy of the credentials is.
    pub open spec fn credentials(self) -> Seq<char> {
        join(self.claude_dir, ".credentials.json"@)
    }

    /// The copy of one entry.
    pub open spec fn seed(self, name: Seq<char>) -> SeedView {
        SeedView {
            name: name,
            from: join(join(self.home, expand(".%"@)), name),
            to: join(self.claude_dir, name),
        }
    }
}

impl Sandbox {
    /// Where the machines' copy of the credentials is.
    pub fn credentials_file(&self) -> (r: String)
        ensures
            r@ == self@.credentials(),
    {
        join_path(self.claude_dir.as_str(), ".credentials.json")
    }

    /// Decides what is done about the credentials, by how the command that reads the
    /// keychain ended. `present` says whether the machines have a copy, `linked` whether a
    /// link stands in its place, `theirs` is what it holds, and `force` asks for it to be
    /// replaced in any case.
    pub fn seed_credentials(
        &self,
        outcome: &Outcome,
        present: bool,
        linked: bool,
        force: bool,
        theirs: &str,
    ) -> (r: Seeding)
        ensures
            r@ == seeding(
                self@.credentials(),
                captured(keychain(), *outcome),
                present,
                linked,
                force,
                theirs@,
            ),
    {
        match keychain_command().capture(outcome) {
            Ok(ours) => {
                if replaces(force, present, token_expiry(theirs), token_expiry(ours.as_str())) {
                    Seeding::Write {
                        unlink: linked,
                        content: trim_tail(ours.as_str(), Pattern::White),
                        message: expanded("seeded & credentials into ").concat(
                            self.credentials_file().as_str(),
                        ),
                    }
                } else {
                    Seeding::Keep
                }
            },
            Err(_) => {
                if present {
                    Seeding::Keep
                } else {
                    Seeding::Warn(warning(expanded(NO_CREDENTIALS).as_str()))
                }
            },
        }
    }

    /// The entries of the user's configuration to be copied, each if it exists, in order.
    pub fn seed_claude_config(&self) -> (r: Vec<Seed>)
        ensures
            entries(r@) == seeded_names().map_values(|name: Seq<char>| self@.seed(name)),
    {
        let names = seeded_entries();
        let root = join_path(self.home.as_str(), expanded(".%").as_str());
        let mut out: Vec<Seed> = Vec::new();
        let mut i: usize = 0;
        while i < names.len()
            invariant
                i <= names@.len(),
                out@.len() == i,
                texts(names@) == seeded_names(),
                root@ == join(self@.home, expand(".%"@)),
                forall|k: int| 0 <= k < i ==> (#[trigger] out@[k])@ == self@.seed(seeded_names()[k]),
            decreases names@.len() - i,
        {
            let name = names[i].as_str();
            assert(name@ == seeded_names()[i as int]);
            out.push(
                Seed {
                    name: name.to_owned(),
                    from: join_path(root.as_str(), name),
                    to: join_path(self.claude_dir.as_str(), name),
                },
            );
            i += 1;
        }
        assert(entries(out@) =~= seeded_names().map_values(|name: Seq<char>| self@.seed(name)));
        out
    }
}

/// What is said where an entry could not be copied.
pub fn copy_failure(name: &str, cause: &str) -> (r: String)
    ensures
        r@ == "copying "@ + name@ + " into the sandbox config: "@ + cause@,
{
    "copying ".to_owned().concat(name).concat(" into the sandbox config: ").concat(cause)
}

/// What a path leads to.
#[derive(Clone, Copy, PartialEq, Eq, Structural)]
pub enum Kind {
    /// A directory.
    Directory,
    /// A file.
    File,
    /// Neither, or nothing.
    Other,
}

/// What stands at a path, with no link followed.
#[derive(Clone, Copy, PartialEq, Eq, Structural)]
pub enum Standing {
    /// Nothing.
    Nothing,
    /// A link, wherever it points.
    Link,
    /// Anything else.
    Other,
}

/// How one path is copied.
pub enum CopyingView {
    Unlink,
    Descend(Seq<(Seq<char>, Seq<char>)>),
    CopyFile,
    Skip,
}

/// How one path is copied.
pub enum Copying {
    /// Remove the link that stands where the copy goes, and ask again.
    Unlink,
    /// Make the directory, and then copy each of these, from the first path to the second.
    Descend(Vec<(String, String)>),
    /// Copy the file, over one that is there, in a directory that is made if need be.
    CopyFile,
    /// Leave it out.
    Skip,
}

/// What the pairs of a list hold.
pub open spec fn pairs(list: Seq<(String, String)>) -> Seq<(Seq<char>, Seq<char>)> {
    Seq::new(list.len(), |k: int| (list[k].0@, list[k].1@))
}

impl View for Copying {
    type V = CopyingView;

    open spec fn view(&self) -> CopyingView {
        match *self {
            Copying::Unlink => CopyingView::Unlink,
            Copying::Descend(list) => CopyingView::Descend(pairs(list@)),
            Copying::CopyFile => CopyingView::CopyFile,
            Copying::Skip => CopyingView::Skip,
        }
    }
}

/// How one path is copied, where `there` stands at the path that it is copied to, and
/// `children` are the names in the directory, if it is one.
pub open spec fn copying(
    kind: Kind,
    from: Seq<char>,
    to: Seq<char>,
    there: Standing,
    children: Seq<Seq<char>>,
) -> CopyingView {
    if kind == Kind::Other {
        CopyingView::Skip
    } else if there == Standing::Link {
        CopyingView::Unlink
    } else if kind == Kind::File {
        CopyingView::CopyFile
    } else {
        CopyingView::Descend(
            children.map_values(|name: Seq<char>| (join(from, name), join(to, name))),
        )
    }
}

/// Decides how one path is copied. `there` is what stands at the path that it is copied to,
/// and `children` are the names in the directory, if it is one. Only links are ever
/// deleted: what else a machine put beside the copies stays.
pub fn copy_tree(
    kind: Kind,
    from: &str,
    to: &str,
    there: Standing,
    children: &Vec<String>,
) -> (r: Copying)
    ensures
        r@ == copying(kind, from@, to@, there, texts(children@)),
{
    match kind {
        Kind::Other => Copying::Skip,
        Kind::Directory | Kind::File => {
            if there == Standing::Link {
                return Copying::Unlink;
            }
            if kind == Kind::File {
                return Copying::CopyFile;
            }
            let ghost names = texts(children@);
            let ghost all = names.map_values(
                |name: Seq<char>| (join(from@, name), join(to@, name)),
            );
            let mut list: Vec<(String, String)> = Vec::new();
            let mut i: usize = 0;
            while i < children.len()
                invariant
                    names == texts(children@),
                    all == names.map_values(
                        |name: Seq<char>| (join(from@, name), join(to@, name)),
                    ),
                    i <= children@.len(),
                    list@.len() == i,
                    forall|k: int| 0 <= k < i ==> #[trigger] pairs(list@)[k] == all[k],
                decreases children@.len() - i,
            {
                let ghost before = list@;
                let name = children[i].as_str();
                assert(names[i as int] == name@);
                list.push((join_path(from, name), join_path(to, name)));
                assert forall|k: int| 0 <= k <= i implies #[trigger] pairs(list@)[k] == all[k] by {
                    if k < i {
                        assert(pairs(before)[k] == all[k]);
                    }
                }
                i += 1;
            }
            assert(pairs(list@) =~= all);
            Copying::Descend(list)
        },
    }
}

/// Nothing is written through a link: where one stands in the place of a copy, nothing is
/// done there but to remove it.
pub proof fn law_no_copy_through_a_link(
    kind: Kind,
    from: Seq<char>,
    to: Seq<char>,
    there: Standing,
    children: Seq<Seq<char>>,
)
    ensures
        ({
            let act = copying(kind, from, to, there, children);
            &&& act is CopyFile || act is Descend ==> there != Standing::Link
            &&& act is Unlink ==> there == Standing::Link
        }),
{
}

/// The credentials are not written through a link either: it is removed first.
pub proof fn law_no_credentials_through_a_link(
    dest: Seq<char>,
    keychain: Result<Seq<char>, Seq<char>>,
    present: bool,
    linked: bool,
    force: bool,
    theirs: Seq<char>,
)
    ensures
        seeding(dest, keychain, present, linked, force, theirs) matches SeedingView::Write {
            unlink,
            ..
        } ==> unlink == linked,
{
}

/// A copy that lives as long as the host's token, or longer, is never overwritten unless
/// that is asked for.
pub proof fn law_longer_lived_token_stays(
    dest: Seq<char>,
    ours: Seq<char>,
    theirs: Seq<char>,
    linked: bool,
)
    requires
        expiry_text(theirs) >= expiry_text(ours),
    ensures
        seeding(dest, Ok(ours), true, linked, false, theirs) == SeedingView::Keep,
{
}

/// A copy that cannot be read gives way to any token that says when it expires.
pub proof fn law_unreadable_copy_gives_way(
    dest: Seq<char>,
    ours: Seq<char>,
    theirs: Seq<char>,
    linked: bool,
    force: bool,
)
    requires
        json_text(theirs) is Err,
        expiry_text(ours) > 0,
    ensures
        seeding(dest, Ok(ours), true, linked, force, theirs) is Write,
{
}

/// Without credentials on the host nothing is written, whatever is asked for.
pub proof fn law_nothing_written_without_credentials(
    dest: Seq<char>,
    why: Seq<char>,
    present: bool,
    linked: bool,
    force: bool,
    theirs: Seq<char>,
)
    ensures
        !(seeding(dest, Err(why), present, linked, force, theirs) is Write),
{
}

/// A copy of a directory stays inside the directory that it is copied to: for a name
/// without a slash at its start, the path that it is copied to starts with that
/// directory's.
pub proof fn law_copy_stays_inside(to: Seq<char>, name: Seq<char>)
    requires
        name.len() > 0,
        name[0] != '/',
    ensures
        starts(join(to, name), to),
{
    let whole = join(to, name);
    assert(whole.subrange(0, to.len() as int) =~= to);
}

/// The template for the directory of the user's own configuration gives a hidden name, of
/// a length that tells it from the tool's own directory.
proof fn lemma_config_dir()
    ensures
        expand(".%"@) == "."@ + agent(),
{
    reveal_strlit(".%");
    reveal_strlit(".");
    lemma_expand_around("."@, '%', seq![]);
    assert(".%"@ =~= "."@ + seq!['%'] + seq![]);
    assert("."@ + agent() + seq![] =~= "."@ + agent());
}

/// The names of the entries are relative ones.
proof fn lemma_names_are_relative(k: int)
    requires
        0 <= k < seeded_names().len(),
    ensures
        seeded_names()[k].len() > 0,
        seeded_names()[k][0] != '/',
{
    reveal_strlit("settings.json");
    reveal_strlit("^.md");
    reveal_strlit("agents");
    reveal_strlit("commands");
    reveal_strlit("skills");
    reveal_strlit("output-styles");
    reveal_strlit("plugins");
    let rest = seq!['.', 'm', 'd'];
    lemma_expand_around(seq![], '^', rest);
    assert("^.md"@ =~= seq![] + seq!['^'] + rest);
    lemma_tool();
    reveal_strlit("CLAUDE_SANDBOX");
    lemma_find_is(ENV_PREFIX@, Pattern::Is('_'), 6);
    assert(expand("^.md"@)[0] == agent_caps()[0]);
}

/// What is copied comes out of the user's own configuration of the agent, and goes into
/// the directory that the machines mount.
pub proof fn law_seeds_stay_inside(sandbox: SandboxView, k: int)
    requires
        0 <= k < seeded_names().len(),
    ensures
        starts(sandbox.seed(seeded_names()[k]).from, join(sandbox.home, expand(".%"@))),
        starts(sandbox.seed(seeded_names()[k]).to, sandbox.claude_dir),
{
    lemma_names_are_relative(k);
    law_copy_stays_inside(join(sandbox.home, expand(".%"@)), seeded_names()[k]);
    law_copy_stays_inside(sandbox.claude_dir, seeded_names()[k]);
}

/// The machines never mount the user's own configuration of the agent: the directory that
/// they mount is another one, wherever the user's home is.
pub proof fn law_own_configuration_is_not_mounted(
    home: Seq<char>,
    user: Seq<char>,
    state: Option<Seq<char>>,
    abs: Seq<char>,
    base: Seq<char>,
    digest: Seq<u8>,
)
    ensures
        SandboxView::of(home, user, state, abs, base, digest).claude_dir != join(
            home,
            expand(".%"@),
        ),
{
    lemma_config_dir();
    lemma_tool();
    reveal_strlit(".");
    assert(join(home, "."@ + tool()).len() != join(home, "."@ + agent()).len());
}

/// When a token expires is what its document says, whatever else it says: of a document with
/// the token under a member of its own, the number there, and of any other object the number
/// at the top; 0 where there is no such number.
pub proof fn law_expiry(
    doc: Map<Seq<char>, JsonView>,
    inner: Map<Seq<char>, JsonView>,
    n: u64,
    other: JsonView,
)
    ensures
        doc.contains_key("claudeAiOauth"@) && doc["claudeAiOauth"@] == JsonView::Object(inner)
            ==> {
            &&& inner.contains_key("expiresAt"@) && inner["expiresAt"@] == JsonView::Number(
                Some(n),
            ) ==> expiry(JsonView::Object(doc)) == n
            &&& !inner.contains_key("expiresAt"@) ==> expiry(JsonView::Object(doc)) == 0
        },
        doc.contains_key("claudeAiOauth"@) && !(doc["claudeAiOauth"@] is Object) ==> expiry(
            JsonView::Object(doc),
        ) == 0,
        !doc.contains_key("claudeAiOauth"@) ==> {
            &&& doc.contains_key("expiresAt"@) && doc["expiresAt"@] == JsonView::Number(Some(n))
                ==> expiry(JsonView::Object(doc)) == n
            &&& !doc.contains_key("expiresAt"@) ==> expiry(JsonView::Object(doc)) == 0
        },
        !(other is Object) ==> expiry(other) == 0,
{
}

/// The time of a text is that of its document, and 0 where it has none.
pub proof fn law_expiry_of_text(text: Seq<char>, doc: JsonView)
    ensures
        json_text(text) == Ok::<JsonView, Seq<char>>(doc) ==> expiry_text(text) == expiry(doc),
        json_text(text) is Err ==> expiry_text(text) == 0,
{
}

/// Where both sides have a token that says when it expires, and nothing is forced, the
/// machines' copy is replaced exactly if the host's token expires later; where it is forced,
/// or there is no copy, it is written in any case. What is written is what the keychain gave,
/// without the white space at its end.
pub proof fn law_later_token_wins(
    dest: Seq<char>,
    ours: Seq<char>,
    blank: Seq<char>,
    theirs: Seq<char>,
    our_token: Map<Seq<char>, JsonView>,
    their_token: Map<Seq<char>, JsonView>,
    our_doc: Map<Seq<char>, JsonView>,
    their_doc: Map<Seq<char>, JsonView>,
    our_time: u64,
    their_time: u64,
    present: bool,
    linked: bool,
    force: bool,
)
    requires
        json_text(ours + blank) == Ok::<JsonView, Seq<char>>(JsonView::Object(our_doc)),
        json_text(theirs) == Ok::<JsonView, Seq<char>>(JsonView::Object(their_doc)),
        our_doc.contains_key("claudeAiOauth"@),
        our_doc["claudeAiOauth"@] == JsonView::Object(our_token),
        our_token.contains_key("expiresAt"@),
        our_token["expiresAt"@] == JsonView::Number(Some(our_time)),
        their_doc.contains_key("claudeAiOauth"@),
        their_doc["claudeAiOauth"@] == JsonView::Object(their_token),
        their_token.contains_key("expiresAt"@),
        their_token["expiresAt"@] == JsonView::Number(Some(their_time)),
        all_of(blank, Pattern::White),
        ours.len() > 0 ==> !Pattern::White.covers(ours.last()),
    ensures
        ({
            let act = seeding(dest, Ok(ours + blank), present, linked, force, theirs);
            &&& act is Write <==> force || !present || our_time > their_time
            &&& act is Keep <==> !force && present && our_time <= their_time
            &&& act matches SeedingView::Write { unlink, content, message } ==> unlink == linked
                && content == ours && ends(message, dest)
        }),
{
    law_expiry(our_doc, our_token, our_time, JsonView::Null);
    law_expiry(their_doc, their_token, their_time, JsonView::Null);
    law_trim_end(ours, blank, Pattern::White);
    law_pieces(expand("seeded & credentials into "@), dest, seq![]);
}

/// In general the machines' copy is kept exactly if there is one, nothing is forced, and the
/// host's token does not expire later.
pub proof fn law_when_a_copy_is_replaced(force: bool, present: bool, theirs: u64, ours: u64)
    ensures
        replaced(force, present, theirs, ours) <==> force || !present || ours > theirs,
{
}

/// Without credentials on the host a copy is kept, and without a copy a warning is given.
pub proof fn law_no_credentials(
    dest: Seq<char>,
    why: Seq<char>,
    linked: bool,
    force: bool,
    theirs: Seq<char>,
)
    ensures
        seeding(dest, Err(why), true, linked, force, theirs) is Keep,
        seeding(dest, Err(why), false, linked, force, theirs) is Warn,
{
}

/// The host's credentials are asked for under the agent's name, and nothing but the secret.
pub proof fn law_keychain()
    ensures
        keychain().program == "security"@,
        keychain().args.len() == 4,
        keychain().args[0] == "find-generic-password"@,
        keychain().args[1] == "-s"@,
        keychain().args[2] == agent_title() + " Code-credentials"@,
        keychain().args[3] == "-w"@,
{
    reveal_strlit("& Code-credentials");
    reveal_strlit(" Code-credentials");
    lemma_expand_around(seq![], '&', " Code-credentials"@);
    assert("& Code-credentials"@ =~= seq![] + seq!['&'] + " Code-credentials"@);
    assert(seq![] + agent_title() + " Code-credentials"@ =~= agent_title()
        + " Code-credentials"@);
}

/// What is copied of the user's configuration: these seven entries, each from the user's own
/// directory for the agent to the same name in the directory that the machines mount.
pub proof fn law_what_is_seeded(sandbox: SandboxView, name: Seq<char>)
    ensures
        seeded_names().len() == 7,
        seeded_names()[0] == "settings.json"@,
        seeded_names()[1] == agent_caps() + ".md"@,
        seeded_names()[2] == "agents"@,
        seeded_names()[3] == "commands"@,
        seeded_names()[4] == "skills"@,
        seeded_names()[5] == "output-styles"@,
        seeded_names()[6] == "plugins"@,
        sandbox.seed(name).name == name,
        sandbox.seed(name).from == join(join(sandbox.home, "."@ + agent()), name),
        sandbox.seed(name).to == join(sandbox.claude_dir, name),
        sandbox.credentials() == join(sandbox.claude_dir, ".credentials.json"@),
{
    lemma_config_dir();
    reveal_strlit("^.md");
    reveal_strlit(".md");
    lemma_expand_around(seq![], '^', ".md"@);
    assert("^.md"@ =~= seq![] + seq!['^'] + ".md"@);
    assert(seq![] + agent_caps() + ".md"@ =~= agent_caps() + ".md"@);
}

/// How each kind of thing is copied: a file as it is, a directory by copying each of its
/// entries, in order, to the same name, and anything else not at all.
pub proof fn law_copies(
    from: Seq<char>,
    to: Seq<char>,
    there: Standing,
    children: Seq<Seq<char>>,
    k: int,
)
    requires
        there != Standing::Link,
        0 <= k < children.len(),
    ensures
        copying(Kind::File, from, to, there, children) is CopyFile,
        copying(Kind::Other, from, to, there, children) is Skip,
        ({
            let act = copying(Kind::Directory, from, to, there, children);
            &&& act is Descend
            &&& act->Descend_0.len() == children.len()
            &&& act->Descend_0[k].0 == join(from, children[k])
            &&& act->Descend_0[k].1 == join(to, children[k])
        }),
        copying(Kind::Directory, from, to, there, Seq::<Seq<char>>::empty())
            == CopyingView::Descend(Seq::<(Seq<char>, Seq<char>)>::empty()),
        copying(Kind::File, from, to, Standing::Link, children) is Unlink,
        copying(Kind::Directory, from, to, Standing::Link, children) is Unlink,
        copying(Kind::Other, from, to, Standing::Link, children) is Skip,
{
    assert(copying(
        Kind::Directory,
        from,
        to,
        there,
        Seq::<Seq<char>>::empty(),
    )->Descend_0 =~= Seq::<(Seq<char>, Seq<char>)>::empty());
}

/// What is decided says what it was made with.
pub proof fn law_decisions_say_what_they_hold(
    seed: Seed,
    text: String,
    message: String,
    unlink: bool,
    list: Vec<(String, String)>,
)
    ensures
        Seeding::Keep@ == SeedingView::Keep,
        Seeding::Warn(text)@ == SeedingView::Warn(text@),
        (Seeding::Write { unlink, content: text, message })@ == (SeedingView::Write {
            unlink,
            content: text@,
            message: message@,
        }),
        Copying::Unlink@ == CopyingView::Unlink,
        Copying::CopyFile@ == CopyingView::CopyFile,
        Copying::Skip@ == CopyingView::Skip,
        Copying::Descend(list)@ is Descend,
        Copying::Descend(list)@->Descend_0.len() == list@.len(),
        forall|k: int|
            0 <= k < list@.len() ==> (#[trigger] Copying::Descend(list)@->Descend_0[k]).0
                == list@[k].0@ && Copying::Descend(list)@->Descend_0[k].1 == list@[k].1@,
        seed@.name == seed.name@,
        seed@.from == seed.from@,
        seed@.to == seed.to@,
{
}

/// A list of entries says what each of them says.
pub proof fn law_entries(list: Seq<Seed>, i: int)
    ensures
        entries(list).len() == list.len(),
        0 <= i < list.len() ==> entries(list)[i] == list[i]@,
{
}

/// Whatever the two sides hold, the copy is replaced exactly if that is forced, there is none,
/// or the host's text says a later time than the copy does.
pub proof fn law_when_credentials_are_written(
    dest: Seq<char>,
    ours: Seq<char>,
    theirs: Seq<char>,
    present: bool,
    linked: bool,
    force: bool,
)
    ensures
        seeding(dest, Ok(ours), present, linked, force, theirs) is Write <==> force || !present
            || expiry_text(ours) > expiry_text(theirs),
        seeding(dest, Ok(ours), present, linked, force, theirs) is Keep <==> !force && present
            && expiry_text(ours) <= expiry_text(theirs),
{
}

} // verus!
