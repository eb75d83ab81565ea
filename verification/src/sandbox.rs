//! A project and what its container is called.

use vstd::prelude::*;
use vstd::string::*;
use vstd::utf8::{encode_utf8, is_ascii_chars};

use crate::args::Cmd;
use crate::names::{lemma_tool, tool, tool_name};
use crate::path::{
    base_name, file_name, join, join_all, join_path, law_gone_link_leads_to_its_target,
    lemma_join_all_concat, lemma_stop_within, link_path, looked_up, search, searched_path, stop_of,
    stops_at, PlaceView,
};
use crate::text::{
    any_of, has_any, lemma_trim_end, lemma_trim_end_rest, lemma_trim_start, lemma_trim_start_rest, opt_text, trim, trim_both, trim_end,
    trim_start, trim_tail, Pattern,
};
use crate::user::{ascii_lowered, hyphenate, hyphenated, is_alphanumeric, lowered, shorten, shortened, to_lowercase};

verus! {

/// Trusted: the MD5 digest that `md5::compute` makes of bytes.
pub uninterp spec fn md5_of(data: Seq<u8>) -> Seq<u8>;

/// Trusted: `md5::compute`, the MD5 digest of bytes: sixteen bytes that depend on
/// the data alone.
#[verifier::external_body]
fn md5_digest(data: &[u8]) -> (r: [u8; 16])
    ensures
        r@ == md5_of(data@),
{
    md5::compute(data).0
}

/// A hexadecimal digit.
pub open spec fn hex_digit(n: int) -> char {
    if n < 10 {
        ('0' as u8 + n) as u8 as char
    } else {
        ('a' as u8 + (n - 10)) as u8 as char
    }
}

/// Bytes in lower-case hexadecimal, two digits each.
pub open spec fn hex(data: Seq<u8>) -> Seq<char> {
    Seq::new(
        data.len() * 2,
        |i: int|
            if i % 2 == 0 {
                hex_digit(data[i / 2] as int / 16)
            } else {
                hex_digit(data[i / 2] as int % 16)
            },
    )
}

/// One of the digits of a hash.
pub open spec fn is_hex_digit(c: char) -> bool {
    '0' <= c <= '9' || 'a' <= c <= 'f'
}

/// A hexadecimal digit.
fn digit(n: u8) -> (r: char)
    requires
        n < 16,
    ensures
        r == hex_digit(n as int),
        is_hex_digit(r),
{
    if n < 10 {
        (48u8 + n) as char
    } else {
        (97u8 + (n - 10)) as char
    }
}

/// How many digits of a path's hash go into its container's name.
pub const HASH_DIGITS: usize = 6;

/// The hash that tells projects with the same directory name apart: the first six
/// digits of the digest of the path.
pub open spec fn path_hash(digest: Seq<u8>) -> Seq<char> {
    hex(digest).take(HASH_DIGITS as int)
}

/// The first six hexadecimal digits of a digest.
pub fn hash_digits(digest: &[u8; 16]) -> (r: String)
    ensures
        r@ == path_hash(digest@),
        is_hash(r@),
{
    let mut out = String::new();
    let mut i: usize = 0;
    while i < 3
        invariant
            i <= 3,
            out@ == hex(digest@).take(2 * i),
            forall|k: int| 0 <= k < out@.len() ==> is_hex_digit(#[trigger] out@[k]),
        decreases 3 - i,
    {
        let b = digest[i];
        let ghost before = out@;
        out.push(digit(b / 16));
        out.push(digit(b % 16));
        proof {
            assert((2 * i) % 2 == 0 && (2 * i) / 2 == i);
            assert((2 * i + 1) % 2 == 1 && (2 * i + 1) / 2 == i);
            assert(out@ =~= hex(digest@).take(2 * (i + 1)));
        }
        i += 1;
    }
    out
}

/// How much of a directory's name goes into its container's name.
pub const BASE_LIMIT: usize = 40;

/// The longest label that DNS takes, in bytes.
pub const LABEL_LIMIT: usize = 63;

/// What a directory's name in lower case becomes in a container's name: with a
/// hyphen for every character outside `[a-z0-9]`, cut to 40 characters, and without
/// hyphens at either end.
pub open spec fn base_of(low: Seq<char>) -> Seq<char> {
    let hyphen = Pattern::Is('-');
    trim_end(shortened(trim(hyphenated(low, '-'), hyphen), BASE_LIMIT as nat), hyphen)
}

/// The name of the directory at the end of a path in lower case; nothing where the
/// path ends in none.
pub open spec fn low_name(abs: Seq<char>) -> Seq<char> {
    match file_name(abs) {
        Some(name) => lowered(name),
        None => seq![],
    }
}

/// What the name of a project's directory becomes in its container's name.
pub open spec fn project_base(abs: Seq<char>) -> Seq<char> {
    base_of(low_name(abs))
}

/// The name of the container for a base and a hash.
pub open spec fn container_name(base: Seq<char>, hash: Seq<char>) -> Seq<char> {
    tool() + "-"@ + base + "-"@ + hash
}

/// Is the text what a directory's name becomes? One to 40 characters of `[a-z0-9-]`, with
/// no hyphen at either end.
pub open spec fn is_base(base: Seq<char>) -> bool {
    &&& 0 < base.len() <= BASE_LIMIT
    &&& base[0] != '-'
    &&& base.last() != '-'
    &&& forall|i: int| 0 <= i < base.len() ==> label_char(#[trigger] base[i])
}

/// Is the text what a path's hash looks like? Six hexadecimal digits.
pub open spec fn is_hash(hash: Seq<char>) -> bool {
    &&& hash.len() == HASH_DIGITS
    &&& forall|i: int| 0 <= i < hash.len() ==> is_hex_digit(#[trigger] hash[i])
}

/// The name of a project's container.
pub open spec fn project_name(abs: Seq<char>) -> Seq<char> {
    container_name(project_base(abs), path_hash(md5_of(encode_utf8(abs))))
}

/// The image for an account.
pub open spec fn image_for(user: Seq<char>) -> Seq<char> {
    tool() + ":"@ + user
}

/// A character of a container's name.
pub open spec fn label_char(c: char) -> bool {
    'a' <= c <= 'z' || '0' <= c <= '9' || c == '-'
}

/// Is the text a DNS label? At most 63 characters of `[a-z0-9-]`, with no hyphen at
/// either end.
pub open spec fn is_label(name: Seq<char>) -> bool {
    &&& 0 < name.len() <= LABEL_LIMIT
    &&& name[0] != '-'
    &&& name.last() != '-'
    &&& forall|i: int| 0 <= i < name.len() ==> label_char(#[trigger] name[i])
}

/// What a [`Sandbox`] says.
pub struct SandboxView {
    pub user: Seq<char>,
    pub image: Seq<char>,
    pub home: Seq<char>,
    pub state_dir: Seq<char>,
    pub claude_dir: Seq<char>,
    pub key: Seq<char>,
    pub ssh_conf: Seq<char>,
    pub abs: Seq<char>,
    pub name: Seq<char>,
    pub target: Seq<char>,
}

impl SandboxView {
    /// The directory of the tool's state: the one asked for, or the usual one.
    pub open spec fn state_dir_of(home: Seq<char>, state: Option<Seq<char>>) -> Seq<char> {
        match state {
            Some(dir) => dir,
            None => join(home, ".config/"@ + tool()),
        }
    }

    /// Everything that is known of a project.
    pub open spec fn of(
        home: Seq<char>,
        user: Seq<char>,
        state: Option<Seq<char>>,
        abs: Seq<char>,
        base: Seq<char>,
        digest: Seq<u8>,
    ) -> SandboxView {
        let state_dir = Self::state_dir_of(home, state);
        SandboxView {
            user: user,
            image: image_for(user),
            home: home,
            state_dir: state_dir,
            claude_dir: join(home, "."@ + tool()),
            key: join(state_dir, "id_ed25519"@),
            ssh_conf: join(state_dir, "ssh_config"@),
            abs: abs,
            name: container_name(base, path_hash(digest)),
            target: "/home/"@ + user + "/Projects/"@ + base,
        }
    }

    /// What holds of every project: its path can be mounted, and its container's
    /// name is a DNS label made of the tool's name, a base and a hash.
    pub open spec fn wf(self) -> bool {
        &&& !any_of(self.abs, Pattern::Is(':'))
        &&& is_label(self.name)
        &&& exists|base: Seq<char>, hash: Seq<char>|
            self.name == #[trigger] container_name(base, hash) && is_base(base) && is_hash(hash)
    }
}

/// A project: where it is, what its container is called, and where the things that
/// belong to it are kept.
pub struct Sandbox {
    /// The account inside the machine.
    pub user: String,
    /// The image that the machine boots.
    pub image: String,
    /// The user's home directory.
    pub home: String,
    /// The directory of the tool's own state.
    pub state_dir: String,
    /// The directory that every machine mounts as the agent's configuration.
    pub claude_dir: String,
    /// The ssh key for the machines.
    pub key: String,
    /// The ssh configuration that the tool manages.
    pub ssh_conf: String,
    /// The project's directory.
    pub abs: String,
    /// The name of the container.
    pub name: String,
    /// Where the project is mounted inside the machine.
    pub target: String,
}

impl View for Sandbox {
    type V = SandboxView;

    open spec fn view(&self) -> SandboxView {
        SandboxView {
            user: self.user@,
            image: self.image@,
            home: self.home@,
            state_dir: self.state_dir@,
            claude_dir: self.claude_dir@,
            key: self.key@,
            ssh_conf: self.ssh_conf@,
            abs: self.abs@,
            name: self.name@,
            target: self.target@,
        }
    }
}

/// What the name of a directory in lower case becomes in a container's name.
pub fn base_name_of(low: &str) -> (r: String)
    ensures
        r@ == base_of(low@),
{
    let hyphen = Pattern::Is('-');
    let whole = hyphenate(low, '-');
    let bare = trim_both(whole.as_str(), hyphen);
    let short = shorten(bare.as_str(), BASE_LIMIT);
    trim_tail(short.as_str(), hyphen)
}

impl Sandbox {
    /// Puts together what is known of a project, from the base of its container's
    /// name and the digest of its path.
    pub fn assemble(
        home: String,
        user: String,
        state: Option<String>,
        abs: String,
        base: &str,
        digest: &[u8; 16],
    ) -> (r: Sandbox)
        ensures
            r@ == SandboxView::of(home@, user@, opt_text(state), abs@, base@, digest@),
    {
        let state_dir = match state {
            Some(dir) => dir,
            None => join_path(
                home.as_str(),
                ".config/".to_owned().concat(tool_name().as_str()).as_str(),
            ),
        };
        let hash = hash_digits(digest);
        Sandbox {
            image: tool_name().concat(":").concat(user.as_str()),
            claude_dir: join_path(
                home.as_str(),
                ".".to_owned().concat(tool_name().as_str()).as_str(),
            ),
            key: join_path(state_dir.as_str(), "id_ed25519"),
            ssh_conf: join_path(state_dir.as_str(), "ssh_config"),
            name: tool_name().concat("-").concat(base).concat("-").concat(hash.as_str()),
            target: "/home/".to_owned().concat(user.as_str()).concat("/Projects/").concat(base),
            user: user,
            home: home,
            state_dir: state_dir,
            abs: abs,
        }
    }

    /// The project in a directory, or why it cannot have a machine: its path holds a
    /// colon, or its name nothing that a container's name could be made of.
    ///
    /// `home` is the user's home directory, `user` the account inside the machine,
    /// `state` the directory asked for in place of the usual one for the tool's state,
    /// and `abs` the directory's absolute path.
    pub fn new(home: String, user: String, state: Option<String>, abs: String) -> (r: Result<
        Sandbox,
        String,
    >)
        ensures
            match r {
                Ok(sandbox) => {
                    &&& !any_of(abs@, Pattern::Is(':'))
                    &&& project_base(abs@).len() > 0
                    &&& is_base(project_base(abs@))
                    &&& is_hash(path_hash(md5_of(encode_utf8(abs@))))
                    &&& sandbox@ == SandboxView::of(
                        home@,
                        user@,
                        opt_text(state),
                        abs@,
                        project_base(abs@),
                        md5_of(encode_utf8(abs@)),
                    )
                    &&& sandbox@.name == project_name(abs@)
                    &&& sandbox@.wf()
                },
                Err(message) => if any_of(abs@, Pattern::Is(':')) {
                    message@
                        == "project path contains ':', which the container -v mount syntax cannot express: "@
                        + abs@
                } else {
                    &&& project_base(abs@).len() == 0
                    &&& message@ == "cannot derive a name from: "@ + abs@
                },
            },
            match file_name(abs@) {
                Some(last) => is_ascii_chars(last) ==> project_base(abs@) == base_of(
                    ascii_lowered(last),
                ),
                None => project_base(abs@) == base_of(seq![]),
            },
    {
        let low = match base_name(abs.as_str()) {
            Some(name) => to_lowercase(name.as_str()),
            None => String::new(),
        };
        if has_any(abs.as_str(), Pattern::Is(':')) {
            return Err(
                "project path contains ':', which the container -v mount syntax cannot express: ".to_owned().concat(
                abs.as_str()),
            );
        }
        assert(low@ =~= low_name(abs@));
        let base = base_name_of(low.as_str());
        if base.as_str().is_empty() {
            return Err("cannot derive a name from: ".to_owned().concat(abs.as_str()));
        }
        let digest = md5_digest(abs.as_str().as_bytes());
        let hash = hash_digits(&digest);
        let sandbox = Self::assemble(home, user, state, abs, base.as_str(), &digest);
        proof {
            lemma_base(low@);
            lemma_label(low@, hash@);
        }
        Ok(sandbox)
    }
}

/// The base that a text without ASCII capitals gives is at most 40 characters of
/// `[a-z0-9-]`, and starts and ends with no hyphen.
pub proof fn lemma_base(low: Seq<char>)
    requires
        forall|i: int| 0 <= i < low.len() ==> !('A' <= #[trigger] low[i] <= 'Z'),
    ensures
        base_of(low).len() > 0 ==> is_base(base_of(low)),
{
    let hyphen = Pattern::Is('-');
    let whole = hyphenated(low, '-');
    let first = trim_start(whole, hyphen);
    let bare = trim(whole, hyphen);
    let short = shortened(bare, BASE_LIMIT as nat);
    let base = base_of(low);
    lemma_trim_start(whole, hyphen);
    lemma_trim_end(first, hyphen);
    lemma_trim_end(short, hyphen);
    let gone = whole.len() - first.len();
    assert forall|i: int| 0 <= i < base.len() implies label_char(#[trigger] base[i]) by {
        assert(base[i] == short[i]);
        assert(short[i] == bare[i]);
        assert(bare[i] == first[i]);
        assert(first[i] == whole[gone + i]);
        assert(!('A' <= low[gone + i] <= 'Z'));
    }
    if base.len() > 0 {
        assert(base[0] == first[0]);
    }
}

/// A container's name is a DNS label.
pub proof fn lemma_label(low: Seq<char>, hash: Seq<char>)
    requires
        forall|i: int| 0 <= i < low.len() ==> !('A' <= #[trigger] low[i] <= 'Z'),
        base_of(low).len() > 0,
        is_hash(hash),
    ensures
        is_label(container_name(base_of(low), hash)),
{
    lemma_base(low);
    lemma_tool();
    reveal_strlit("-");
    let base = base_of(low);
    let name = container_name(base, hash);
    assert forall|i: int| 0 <= i < name.len() implies label_char(#[trigger] name[i]) by {
        if i < 14 {
            assert(name[i] == tool()[i]);
        } else if 15 <= i < 15 + base.len() {
            assert(name[i] == base[i - 15]);
        } else if i >= 16 + base.len() {
            assert(name[i] == hash[i - 16 - base.len()]);
        }
    }
    assert(name.last() == hash[5]);
}

/// The name of a project's container depends on the project's path alone: whoever
/// runs the tool and wherever its state is kept, a later run finds the container
/// that an earlier one made.
pub proof fn law_name_depends_on_path_alone(
    home1: Seq<char>,
    user1: Seq<char>,
    state1: Option<Seq<char>>,
    home2: Seq<char>,
    user2: Seq<char>,
    state2: Option<Seq<char>>,
    abs: Seq<char>,
)
    ensures
        ({
            let base = project_base(abs);
            let digest = md5_of(encode_utf8(abs));
            SandboxView::of(home1, user1, state1, abs, base, digest).name == SandboxView::of(
                home2,
                user2,
                state2,
                abs,
                base,
                digest,
            ).name
        }),
{
}

/// A directory that is gone keeps its container's name, however much of its path is gone
/// with it: put back together from an ancestor, or from one further down whose path is that
/// ancestor's with the names between them behind it, the path and so the name are the same.
pub proof fn law_gone_directory_keeps_its_name(
    ancestor: Seq<char>,
    components: Seq<Seq<char>>,
    j: int,
    k: int,
)
    requires
        0 <= j <= k <= components.len(),
    ensures
        ({
            let further = join_all(ancestor, components.subrange(j, k));
            let one = join_all(ancestor, components.skip(j));
            let other = join_all(further, components.skip(k));
            one == other && project_name(one) == project_name(other)
        }),
{
    lemma_join_all_concat(ancestor, components.subrange(j, k), components.skip(k));
    assert(components.subrange(j, k) + components.skip(k) =~= components.skip(j));
}

/// A link to a directory that is gone keeps the name of its container: the path that is
/// found through the link is that of the link's target, put back together from what still
/// exists of it and leads through no further link. `before` is the path of the directory that holds the link, and `tail`
/// what stands behind the link.
pub proof fn law_gone_link_keeps_its_name(
    fs: spec_fn(Seq<Seq<char>>) -> PlaceView,
    resolve: spec_fn(Seq<Seq<char>>) -> Seq<char>,
    before: Seq<Seq<char>>,
    name: Seq<char>,
    tail: Seq<Seq<char>>,
    target: Seq<char>,
)
    requires
        fs(before).exists,
        fs(before.push(name)).link == Some(target),
        forall|k: int|
            before.len() < k <= before.len() + 1 + tail.len() ==> !#[trigger] stops_at(
                before.push(name) + tail,
                looked_up(fs, before.push(name) + tail),
                k,
            ),
        ({
            let path = link_path(before, target) + tail;
            let k = stop_of(path, looked_up(fs, path), path.len()) as int;
            fs(path.take(k)).exists && (k < path.len() ==> fs(path.take(k + 1)).link is None)
        }),
    ensures
        ({
            let path = link_path(before, target) + tail;
            let k = stop_of(path, looked_up(fs, path), path.len()) as int;
            let found = searched_path(fs, resolve, before.push(name) + tail);
            let created = join_all(resolve(path.take(k)), path.skip(k));
            found == created && project_name(found) == project_name(created)
        }),
{
    let asked = before.push(name) + tail;
    law_gone_link_leads_to_its_target(fs, asked, before, name, tail, target, 0);
    let path = link_path(before, target) + tail;
    let k = stop_of(path, looked_up(fs, path), path.len());
    lemma_stop_within(path, looked_up(fs, path), path.len());
    assert(looked_up(fs, path)[k as int] == fs(path.take(k as int)));
    if k < path.len() {
        assert(looked_up(fs, path)[k as int + 1] == fs(path.take(k as int + 1)));
    }
    assert(search(fs, asked, path, 1) == (path, k));
}

/// The hash keeps projects apart: containers whose paths have different hashes have
/// different names, also where the directories have the same name.
pub proof fn law_hash_keeps_names_apart(
    base1: Seq<char>,
    hash1: Seq<char>,
    base2: Seq<char>,
    hash2: Seq<char>,
)
    requires
        hash1.len() == HASH_DIGITS,
        hash2.len() == HASH_DIGITS,
        hash1 != hash2,
    ensures
        container_name(base1, hash1) != container_name(base2, hash2),
{
    let a = container_name(base1, hash1);
    let b = container_name(base2, hash2);
    assert(a.skip(a.len() - 6) =~= hash1);
    assert(b.skip(b.len() - 6) =~= hash2);
}

/// The account is part of the image's tag: two accounts never share an image.
pub proof fn law_image_per_account(user1: Seq<char>, user2: Seq<char>)
    requires
        image_for(user1) == image_for(user2),
    ensures
        user1 == user2,
{
    let n = (tool() + ":"@).len() as int;
    assert(image_for(user1).skip(n) =~= user1);
    assert(image_for(user2).skip(n) =~= user2);
}

/// How the directory named on the command line becomes an absolute path.
#[derive(Clone, Copy, PartialEq, Eq, Structural)]
pub enum Locate {
    /// It is there: resolve it.
    Resolve,
    /// It is gone: resolve what is left of its path.
    Absolutize,
}

/// Decides how the directory named on the command line becomes an absolute path.
/// Stopping and deleting a machine must work after the directory is gone.
pub fn locate(dir: &str, cmd: Cmd, is_dir: bool) -> (r: Result<Locate, String>)
    ensures
        match r {
            Ok(how) => {
                &&& how == Locate::Resolve <==> is_dir
                &&& is_dir || cmd == Cmd::Stop || cmd == Cmd::Rm
            },
            Err(message) => {
                &&& !is_dir
                &&& cmd == Cmd::Up || cmd == Cmd::Shell
                &&& message@ == "not a directory: "@ + dir@
            },
        },
{
    if is_dir {
        return Ok(Locate::Resolve);
    }
    match cmd {
        Cmd::Stop | Cmd::Rm => Ok(Locate::Absolutize),
        Cmd::Up | Cmd::Shell => Err("not a directory: ".to_owned().concat(dir)),
    }
}

/// What a directory's name in lower case becomes in its container's name, character by
/// character: from the first letter or digit on, letters and digits stay and all else becomes
/// a hyphen; it is cut at 40 characters, and hyphens at its end go.
pub proof fn law_base_of(low: Seq<char>)
    ensures
        ({
            let base = base_of(low);
            exists|from: int| #![trigger low.skip(from)]
                {
                    &&& 0 <= from <= low.len()
                    &&& base.len() <= 40
                    &&& from + base.len() <= low.len()
                    &&& base.len() > 0 ==> base[0] != '-' && base.last() != '-'
                    &&& forall|i: int| 0 <= i < from ==> !is_alphanumeric(#[trigger] low[i])
                    &&& forall|i: int|
                        0 <= i < base.len() ==> #[trigger] base[i] == if is_alphanumeric(
                            low[from + i],
                        ) {
                            low[from + i]
                        } else {
                            '-'
                        }
                    &&& forall|i: int|
                        from + base.len() <= i < low.len() && i < from + 40 ==> !is_alphanumeric(
                            #[trigger] low[i],
                        )
                }
        }),
{
    let hyphen = Pattern::Is('-');
    let whole = hyphenated(low, '-');
    let first = trim_start(whole, hyphen);
    let bare = trim(whole, hyphen);
    let short = shortened(bare, 40);
    let base = base_of(low);
    lemma_trim_start(whole, hyphen);
    lemma_trim_start_rest(whole, hyphen);
    lemma_trim_end(first, hyphen);
    lemma_trim_end_rest(first, hyphen);
    lemma_trim_end(short, hyphen);
    lemma_trim_end_rest(short, hyphen);
    let from = whole.len() - first.len();
    assert forall|i: int| 0 <= i < from implies !is_alphanumeric(#[trigger] low[i]) by {
        assert(hyphen.covers(whole[i]));
    }
    assert forall|i: int| 0 <= i < base.len() implies #[trigger] base[i] == if is_alphanumeric(
        low[from + i],
    ) {
        low[from + i]
    } else {
        '-'
    } by {
        assert(base[i] == short[i]);
        assert(short[i] == bare[i]);
        assert(bare[i] == first[i]);
        assert(first[i] == whole[from + i]);
    }
    if base.len() > 0 {
        assert(base[0] == first[0]);
    }
    assert forall|i: int|
        from + base.len() <= i < low.len() && i < from + 40 implies !is_alphanumeric(
        #[trigger] low[i],
    ) by {
        let j = i - from;
        assert(first[j] == whole[i]);
        if j < short.len() {
            assert(hyphen.covers(short[j]));
            assert(short[j] == bare[j]);
            assert(bare[j] == first[j]);
        } else {
            assert(j >= bare.len());
            assert(hyphen.covers(first[j]));
        }
    }
    assert(low.skip(from).len() >= 0);
}

/// What a hexadecimal digit is worth.
pub open spec fn hex_value(c: char) -> int {
    if '0' <= c <= '9' {
        c as int - '0' as int
    } else {
        c as int - 'a' as int + 10
    }
}

/// The hash of a path is the first three bytes of its digest, two digits for each, the
/// higher one first.
pub proof fn law_path_hash(digest: Seq<u8>, i: int)
    requires
        digest.len() >= 3,
        0 <= i < 3,
    ensures
        path_hash(digest).len() == 6,
        16 * hex_value(path_hash(digest)[2 * i]) + hex_value(path_hash(digest)[2 * i + 1])
            == digest[i] as int,
        0 <= hex_value(path_hash(digest)[2 * i]) < 16,
        0 <= hex_value(path_hash(digest)[2 * i + 1]) < 16,
{
    assert((2 * i) % 2 == 0 && (2 * i) / 2 == i);
    assert((2 * i + 1) % 2 == 1 && (2 * i + 1) / 2 == i);
    let b = digest[i] as int;
    assert(path_hash(digest)[2 * i] == hex_digit(b / 16));
    assert(path_hash(digest)[2 * i + 1] == hex_digit(b % 16));
    lemma_hex_value(b / 16);
    lemma_hex_value(b % 16);
}

/// A hexadecimal digit is worth the number that it writes.
proof fn lemma_hex_value(n: int)
    requires
        0 <= n < 16,
    ensures
        hex_value(hex_digit(n)) == n,
{
}

/// How a project's container is called: by the tool's name, what the last component of its
/// path becomes, and the hash of the whole path.
pub proof fn law_project_name(abs: Seq<char>, last: Seq<char>)
    requires
        file_name(abs) == Some(last),
    ensures
        project_name(abs) == tool() + "-"@ + base_of(lowered(last)) + "-"@ + path_hash(
            md5_of(encode_utf8(abs)),
        ),
        project_base(abs) == base_of(lowered(last)),
{
}

/// Where a project's things are: the key and the managed configuration in the directory of
/// the tool's state, which is the one asked for or else under the user's home; the agent's
/// configuration, shared by all machines, in the user's home; and the project, inside the
/// machine, in the account's home.
pub proof fn law_places(
    home: Seq<char>,
    user: Seq<char>,
    state: Option<Seq<char>>,
    abs: Seq<char>,
    base: Seq<char>,
    digest: Seq<u8>,
)
    ensures
        ({
            let sandbox = SandboxView::of(home, user, state, abs, base, digest);
            &&& sandbox.user == user
            &&& sandbox.home == home
            &&& sandbox.abs == abs
            &&& sandbox.image == tool() + ":"@ + user
            &&& sandbox.name == tool() + "-"@ + base + "-"@ + path_hash(digest)
            &&& sandbox.target == "/home/"@ + user + "/Projects/"@ + base
            &&& sandbox.claude_dir == join(home, "."@ + tool())
            &&& state matches Some(dir) ==> sandbox.state_dir == dir
            &&& state is None ==> sandbox.state_dir == join(home, ".config/"@ + tool())
            &&& sandbox.key == join(sandbox.state_dir, "id_ed25519"@)
            &&& sandbox.ssh_conf == join(sandbox.state_dir, "ssh_config"@)
        }),
{
}

/// A project says what it was made with.
pub proof fn law_project_says_what_it_holds(sandbox: Sandbox)
    ensures
        sandbox@.user == sandbox.user@,
        sandbox@.image == sandbox.image@,
        sandbox@.home == sandbox.home@,
        sandbox@.state_dir == sandbox.state_dir@,
        sandbox@.claude_dir == sandbox.claude_dir@,
        sandbox@.key == sandbox.key@,
        sandbox@.ssh_conf == sandbox.ssh_conf@,
        sandbox@.abs == sandbox.abs@,
        sandbox@.name == sandbox.name@,
        sandbox@.target == sandbox.target@,
{
}

/// A path can be mounted exactly if no colon stands in it, and a container's name is a DNS
/// label: at most 63 small letters, digits and hyphens, with no hyphen at either end.
pub proof fn law_valid_projects(sandbox: SandboxView, i: int)
    requires
        sandbox.wf(),
    ensures
        0 <= i < sandbox.abs.len() ==> sandbox.abs[i] != ':',
        0 < sandbox.name.len() <= 63,
        sandbox.name[0] != '-',
        sandbox.name.last() != '-',
        0 <= i < sandbox.name.len() ==> 'a' <= sandbox.name[i] <= 'z' || '0' <= sandbox.name[i]
            <= '9' || sandbox.name[i] == '-',
{
    if 0 <= i < sandbox.abs.len() {
        assert(!Pattern::Is(':').covers(sandbox.abs[i]));
    }
    if 0 <= i < sandbox.name.len() {
        assert(label_char(sandbox.name[i]));
    }
}

} // verus!
