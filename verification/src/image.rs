//! The image that the machines boot, and the keys that open them.

use vstd::prelude::*;
use vstd::string::*;

use crate::names::{expand, expanded, tool, tool_name};
use crate::number::{decimal, decimal_text};
use crate::process::{container, container_command, CommandLine, CommandView};
use crate::sandbox::{Sandbox, SandboxView};
use crate::ssh_config::{config_lines, law_own_lines};
use crate::text::{
    all_of, any_of, ends, ends_with, has_text, join_texts, joined, law_joined,
    law_joined_holds_all, law_lines, law_pieces, law_trim, lemma_lines_have_no_newline, lemma_trim_end,
    lemma_trim_start, lines, split_lines, starts, starts_with, texts, trim_start, trim_white,
    trimmed, Pattern,
};

verus! {

/// The keys in the first `n` lines: the lines that are not blank, without the white space
/// around them.
pub open spec fn keys_in(ls: Seq<Seq<char>>, n: nat) -> Seq<Seq<char>>
    decreases n,
{
    if n == 0 {
        seq![]
    } else {
        let before = keys_in(ls, (n - 1) as nat);
        let key = trimmed(ls[n - 1]);
        if key.len() == 0 {
            before
        } else {
            before.push(key)
        }
    }
}

/// The keys in the first `n` key files, one after the other.
pub open spec fn keys_of(sources: Seq<Seq<char>>, n: nat) -> Seq<Seq<char>>
    decreases n,
{
    if n == 0 {
        seq![]
    } else {
        let ls = lines(sources[n - 1]);
        keys_of(sources, (n - 1) as nat) + keys_in(ls, ls.len())
    }
}

/// The keys of all key files on a single line: between each two stand a backslash and the
/// letter n, which the image's build makes a line feed of.
pub open spec fn authorized(sources: Seq<Seq<char>>) -> Seq<char> {
    joined(keys_of(sources, sources.len()), "\\n"@)
}

/// The keys of all key files on a single line. A file may hold several keys, one to a
/// line.
pub fn authorized_keys(sources: &Vec<String>) -> (r: String)
    ensures
        r@ == authorized(texts(sources@)),
{
    let ghost all = texts(sources@);
    let mut keys: Vec<String> = Vec::new();
    let mut i: usize = 0;
    while i < sources.len()
        invariant
            all == texts(sources@),
            i <= sources@.len(),
            texts(keys@) == keys_of(all, i as nat),
        decreases sources@.len() - i,
    {
        let ls = split_lines(sources[i].as_str());
        let ghost these = lines(all[i as int]);
        let ghost before = keys_of(all, i as nat);
        assert(texts(ls@) == these);
        assert(before + keys_in(these, 0) =~= before);
        let mut j: usize = 0;
        while j < ls.len()
            invariant
                texts(ls@) == these,
                j <= ls@.len(),
                texts(keys@) == before + keys_in(these, j as nat),
            decreases ls@.len() - j,
        {
            let key = trim_white(ls[j].as_str());
            assert(these[j as int] == ls@[j as int]@);
            let ghost had = texts(keys@);
            if !key.as_str().is_empty() {
                keys.push(key);
                assert(texts(keys@) =~= had.push(key@));
                assert(texts(keys@) =~= before + keys_in(these, (j + 1) as nat));
            }
            j += 1;
        }
        i += 1;
    }
    join_texts(&keys, "\\n")
}

/// Is it the name of a public key of the user's?
pub open spec fn names_key(file_name: Seq<char>) -> bool {
    starts(file_name, "id_"@) && ends(file_name, ".pub"@)
}

/// Is it the name of a public key of the user's?
pub fn is_key_file(file_name: &str) -> (r: bool)
    ensures
        r == names_key(file_name@),
{
    starts_with(file_name, "id_") && ends_with(file_name, ".pub")
}

/// The name of the directory that an image is built from, for the process that builds it.
pub fn context_name(process: u32) -> (r: String)
    ensures
        r@ == expand("@-ctx-"@) + decimal(process as nat),
{
    expanded("@-ctx-").concat(decimal_text(process).as_str())
}

impl SandboxView {
    /// The command that builds the image.
    pub open spec fn build_args(
        self,
        sources: Seq<Seq<char>>,
        context: Seq<char>,
    ) -> Seq<Seq<char>> {
        seq![
            "build"@,
            "-t"@,
            self.image,
            "--build-arg"@,
            "SSH_PUBKEY="@ + authorized(sources),
            "--build-arg"@,
            "USERNAME="@ + self.user,
            context,
        ]
    }

    /// The command that makes the key for the machines, without a passphrase.
    pub open spec fn keygen(self) -> CommandView {
        CommandView {
            program: "ssh-keygen"@,
            args: seq!["-q"@, "-t"@, "ed25519"@, "-N"@, ""@, "-C"@, tool(), "-f"@, self.key],
        }
    }
}

impl Sandbox {
    /// Where the public half of the key for the machines is.
    pub fn public_key(&self) -> (r: String)
        ensures
            r@ == self@.key + ".pub"@,
    {
        self.key.clone().concat(".pub")
    }

    /// What it takes for the key to be there: nothing, if it exists, and otherwise a
    /// command, with what is said once it succeeded.
    pub fn ensure_key(&self, present: bool) -> (r: Option<(CommandLine, String)>)
        ensures
            match r {
                Some((command, message)) => {
                    &&& !present
                    &&& command@ == self@.keygen()
                    &&& message@ == "generated ssh key "@ + self@.key
                },
                None => present,
            },
    {
        if present {
            return None;
        }
        let args = vec![
            "-q".to_owned(),
            "-t".to_owned(),
            "ed25519".to_owned(),
            "-N".to_owned(),
            "".to_owned(),
            "-C".to_owned(),
            tool_name(),
            "-f".to_owned(),
            self.key.clone(),
        ];
        assert(texts(args@) =~= self@.keygen().args);
        let command = CommandLine { program: "ssh-keygen".to_owned(), args: args };
        Some((command, "generated ssh key ".to_owned().concat(self.key.as_str())))
    }

    /// The command that builds the image, from the directory `context`, for the account and
    /// with the keys of the given key files.
    pub fn build_image(&self, sources: &Vec<String>, context: &str) -> (r: CommandLine)
        ensures
            r@ == container(self@.build_args(texts(sources@), context@)),
    {
        let args = vec![
            "build".to_owned(),
            "-t".to_owned(),
            self.image.clone(),
            "--build-arg".to_owned(),
            "SSH_PUBKEY=".to_owned().concat(authorized_keys(sources).as_str()),
            "--build-arg".to_owned(),
            "USERNAME=".to_owned().concat(self.user.as_str()),
            context.to_owned(),
        ];
        assert(texts(args@) =~= self@.build_args(texts(sources@), context@));
        container_command(args)
    }

    /// What is said before the image is built.
    pub fn building_message(&self) -> (r: String)
        ensures
            r@ == "building "@ + self@.image + " ..."@,
    {
        "building ".to_owned().concat(self.image.as_str()).concat(" ...")
    }
}

/// Texts without a line feed, joined by one without, hold none.
proof fn lemma_joined_on_one_line(list: Seq<Seq<char>>, sep: Seq<char>)
    requires
        !any_of(sep, Pattern::Is('\n')),
        forall|k: int| 0 <= k < list.len() ==> !any_of(#[trigger] list[k], Pattern::Is('\n')),
    ensures
        !any_of(joined(list, sep), Pattern::Is('\n')),
    decreases list.len(),
{
    let p = Pattern::Is('\n');
    if list.len() > 1 {
        let front = list.drop_last();
        assert forall|k: int| 0 <= k < front.len() implies !any_of(#[trigger] front[k], p) by {
            assert(front[k] == list[k]);
        }
        lemma_joined_on_one_line(front, sep);
        let a = joined(front, sep);
        let last = list[list.len() - 1];
        let whole = joined(list, sep);
        assert(whole =~= a + sep + last);
        assert forall|k: int| 0 <= k < whole.len() implies !p.covers(#[trigger] whole[k]) by {
            if k < a.len() {
                assert(!p.covers(a[k]));
            } else if k < a.len() + sep.len() {
                assert(!p.covers(sep[k - a.len()]));
            } else {
                assert(!p.covers(last[k - a.len() - sep.len()]));
            }
        }
    } else if list.len() == 1 {
        assert(!any_of(list[0], p));
    }
}

/// Trimming brings in no line feed.
proof fn lemma_trimmed_on_one_line(s: Seq<char>)
    requires
        !any_of(s, Pattern::Is('\n')),
    ensures
        !any_of(trimmed(s), Pattern::Is('\n')),
{
    let p = Pattern::Is('\n');
    let first = trim_start(s, Pattern::White);
    lemma_trim_start(s, Pattern::White);
    lemma_trim_end(first, Pattern::White);
    let t = trimmed(s);
    let gone = s.len() - first.len();
    assert forall|k: int| 0 <= k < t.len() implies !p.covers(#[trigger] t[k]) by {
        assert(t[k] == first[k]);
        assert(first[k] == s[gone + k]);
    }
}

/// Keys hold no line feed.
proof fn lemma_keys_on_one_line(sources: Seq<Seq<char>>, n: nat)
    requires
        n <= sources.len(),
    ensures
        forall|k: int|
            0 <= k < keys_of(sources, n).len() ==> !any_of(
                #[trigger] keys_of(sources, n)[k],
                Pattern::Is('\n'),
            ),
    decreases n,
{
    if n > 0 {
        let ls = lines(sources[n - 1]);
        lemma_keys_on_one_line(sources, (n - 1) as nat);
        lemma_lines_have_no_newline(sources[n - 1]);
        lemma_file_on_one_line(ls, ls.len());
        let before = keys_of(sources, (n - 1) as nat);
        let all = keys_of(sources, n);
        assert forall|k: int| 0 <= k < all.len() implies !any_of(
            #[trigger] all[k],
            Pattern::Is('\n'),
        ) by {
            if k < before.len() {
                assert(all[k] == before[k]);
            } else {
                assert(all[k] == keys_in(ls, ls.len())[k - before.len()]);
            }
        }
    }
}

/// The keys in lines without a line feed hold none.
proof fn lemma_file_on_one_line(ls: Seq<Seq<char>>, n: nat)
    requires
        n <= ls.len(),
        forall|k: int| 0 <= k < ls.len() ==> !any_of(#[trigger] ls[k], Pattern::Is('\n')),
    ensures
        forall|k: int|
            0 <= k < keys_in(ls, n).len() ==> !any_of(
                #[trigger] keys_in(ls, n)[k],
                Pattern::Is('\n'),
            ),
    decreases n,
{
    if n > 0 {
        lemma_file_on_one_line(ls, (n - 1) as nat);
        lemma_trimmed_on_one_line(ls[n - 1]);
        let before = keys_in(ls, (n - 1) as nat);
        let all = keys_in(ls, n);
        assert forall|k: int| 0 <= k < all.len() implies !any_of(
            #[trigger] all[k],
            Pattern::Is('\n'),
        ) by {
            if k < before.len() {
                assert(all[k] == before[k]);
            }
        }
    }
}

/// The keys that are handed to the build stand on a single line, whatever is in the key
/// files: a raw line feed in an argument is more than the builder takes.
pub proof fn law_keys_on_one_line(sources: Seq<Seq<char>>)
    ensures
        !any_of(authorized(sources), Pattern::Is('\n')),
{
    reveal_strlit("\\n");
    lemma_keys_on_one_line(sources, sources.len());
    lemma_joined_on_one_line(keys_of(sources, sources.len()), "\\n"@);
}

/// Every key is authorized: a line of a key file that is not blank is among the keys,
/// without the white space around it.
pub proof fn law_every_key_is_authorized(sources: Seq<Seq<char>>, i: int, j: int)
    requires
        0 <= i < sources.len(),
        0 <= j < lines(sources[i]).len(),
        trimmed(lines(sources[i])[j]).len() > 0,
    ensures
        keys_of(sources, sources.len()).contains(trimmed(lines(sources[i])[j])),
{
    lemma_file_is_kept(sources, i, sources.len());
    let ls = lines(sources[i]);
    lemma_line_is_kept(ls, j, ls.len());
    let key = trimmed(ls[j]);
    let at = choose|k: int|
        0 <= k < keys_in(ls, ls.len()).len() && #[trigger] keys_in(ls, ls.len())[k] == key;
    assert(keys_of(sources, sources.len()).contains(keys_in(ls, ls.len())[at]));
}

/// The keys in a line stay among those of more lines.
proof fn lemma_line_is_kept(ls: Seq<Seq<char>>, j: int, n: nat)
    requires
        0 <= j < n <= ls.len(),
        trimmed(ls[j]).len() > 0,
    ensures
        keys_in(ls, n).contains(trimmed(ls[j])),
    decreases n,
{
    let before = keys_in(ls, (n - 1) as nat);
    let key = trimmed(ls[j]);
    if j < n - 1 {
        lemma_line_is_kept(ls, j, (n - 1) as nat);
        let at = choose|k: int| 0 <= k < before.len() && #[trigger] before[k] == key;
        assert(keys_in(ls, n)[at] == key);
    } else {
        assert(keys_in(ls, n)[before.len() as int] == key);
    }
}

/// The keys in a file stay among those of more files.
proof fn lemma_file_is_kept(sources: Seq<Seq<char>>, i: int, n: nat)
    requires
        0 <= i < n <= sources.len(),
    ensures
        ({
            let ls = lines(sources[i]);
            forall|k: int|
                0 <= k < keys_in(ls, ls.len()).len() ==> keys_of(sources, n).contains(
                    #[trigger] keys_in(ls, ls.len())[k],
                )
        }),
    decreases n,
{
    let ls = lines(sources[i]);
    let keys = keys_in(ls, ls.len());
    let before = keys_of(sources, (n - 1) as nat);
    if i < n - 1 {
        lemma_file_is_kept(sources, i, (n - 1) as nat);
        assert forall|k: int| 0 <= k < keys.len() implies keys_of(sources, n).contains(
            #[trigger] keys[k],
        ) by {
            assert(before.contains(keys[k]));
            let at = choose|m: int| 0 <= m < before.len() && #[trigger] before[m] == keys[k];
            assert(keys_of(sources, n)[at] == keys[k]);
        }
    } else {
        assert forall|k: int| 0 <= k < keys.len() implies keys_of(sources, n).contains(
            #[trigger] keys[k],
        ) by {
            assert(keys_of(sources, n)[before.len() + k as int] == keys[k]);
        }
    }
}

/// Every key is handed to the build: a line of a key file that is not blank stands whole,
/// without the white space around it, in the text that the build is given.
pub proof fn law_every_key_is_handed_over(sources: Seq<Seq<char>>, i: int, j: int)
    requires
        0 <= i < sources.len(),
        0 <= j < lines(sources[i]).len(),
        trimmed(lines(sources[i])[j]).len() > 0,
    ensures
        has_text(authorized(sources), trimmed(lines(sources[i])[j])),
{
    law_every_key_is_authorized(sources, i, j);
    let keys = keys_of(sources, sources.len());
    let key = trimmed(lines(sources[i])[j]);
    let k = choose|k: int| 0 <= k < keys.len() && #[trigger] keys[k] == key;
    law_joined_holds_all(keys, "\\n"@, k);
}

/// The text that the build is given holds the keys and nothing else, in order: one file with
/// one key gives the key, and another key behind others gives what they give, a backslash,
/// the letter n, and the key. Blank lines give nothing.
pub proof fn law_keys_in_order(sources: Seq<Seq<char>>, key: Seq<char>, blank: Seq<char>)
    requires
        key.len() > 0,
        !any_of(key, Pattern::Is('\n')),
        !Pattern::White.covers(key[0]),
        !Pattern::White.covers(key.last()),
        !any_of(blank, Pattern::Is('\n')),
        all_of(blank, Pattern::White),
    ensures
        authorized(Seq::<Seq<char>>::empty()) == Seq::<char>::empty(),
        authorized(sources.push(blank)) == authorized(sources),
        authorized(sources.push(key)) == if keys_of(sources, sources.len()).len() == 0 {
            key
        } else {
            authorized(sources) + seq!['\\', 'n'] + key
        },
        authorized(sources.push(key + seq!['\n'])) == authorized(sources.push(key)),
{
    let n = sources.len();
    let none: Seq<char> = seq![];
    let sep = "\\n"@;
    reveal_strlit("\\n");
    assert(sep =~= seq!['\\', 'n']);
    let before = keys_of(sources, n);
    lemma_keys_prefix(sources, key, n);
    lemma_keys_prefix(sources, blank, n);
    lemma_keys_prefix(sources, key + seq!['\n'], n);
    law_lines(key, none);
    law_lines(blank, none);
    law_trim(none, key, none, Pattern::White);
    assert(none + key + none =~= key);
    assert(key + seq!['\n'] + none =~= key + seq!['\n']);
    law_trim(blank, none, none, Pattern::White);
    assert(blank + none + none =~= blank);
    reveal_with_fuel(keys_in, 2);
    assert(key.last() != '\r') by {
        assert(Pattern::White.covers('\r'));
    }
    assert(lines(key) =~= seq![key]);
    assert(lines(key + seq!['\n']) =~= seq![key]);
    assert(keys_in(seq![key], 1) =~= seq![key]);
    assert(keys_of(sources.push(key), n + 1) =~= before.push(key));
    assert(keys_of(sources.push(key + seq!['\n']), n + 1) =~= before.push(key));
    if blank.len() == 0 {
        assert(blank =~= none);
    }
    assert(keys_in(lines(blank), lines(blank).len()) =~= seq![]);
    assert(keys_of(sources.push(blank), n + 1) =~= before);
    law_joined(before, key, sep);
    if before.len() == 0 {
        assert(before.push(key) =~= seq![key]);
    }
}

/// More key files change nothing of what comes before.
proof fn lemma_keys_prefix(sources: Seq<Seq<char>>, more: Seq<char>, n: nat)
    requires
        n <= sources.len(),
    ensures
        keys_of(sources.push(more), n) == keys_of(sources, n),
    decreases n,
{
    if n > 0 {
        lemma_keys_prefix(sources, more, (n - 1) as nat);
    }
}

/// Within a key file the keys come line by line: each line that is not blank gives itself
/// without the white space around it, and a blank one gives nothing.
pub proof fn law_keys_line_by_line(ls: Seq<Seq<char>>, n: nat)
    requires
        n < ls.len(),
    ensures
        keys_in(ls, 0) == Seq::<Seq<char>>::empty(),
        trimmed(ls[n as int]).len() > 0 ==> keys_in(ls, n + 1) == keys_in(ls, n).push(
            trimmed(ls[n as int]),
        ),
        trimmed(ls[n as int]).len() == 0 ==> keys_in(ls, n + 1) == keys_in(ls, n),
{
}

/// And the files come one after the other, each with all its lines.
pub proof fn law_keys_file_by_file(sources: Seq<Seq<char>>, n: nat)
    requires
        n < sources.len(),
    ensures
        keys_of(sources, 0) == Seq::<Seq<char>>::empty(),
        keys_of(sources, n + 1) == keys_of(sources, n) + keys_in(
            lines(sources[n as int]),
            lines(sources[n as int]).len(),
        ),
        authorized(sources) == joined(keys_of(sources, sources.len()), seq!['\\', 'n']),
{
    reveal_strlit("\\n");
    assert("\\n"@ =~= seq!['\\', 'n']);
}

/// A file holds a public key of the user's exactly if its name is `id_`, anything, and
/// `.pub`.
pub proof fn law_key_file_names(middle: Seq<char>, name: Seq<char>)
    ensures
        names_key("id_"@ + middle + ".pub"@),
        names_key(name) ==> starts(name, "id_"@) && ends(name, ".pub"@),
        !starts(name, "id_"@) || !ends(name, ".pub"@) ==> !names_key(name),
{
    law_pieces("id_"@ + middle, ".pub"@, seq![]);
    law_pieces("id_"@, middle + ".pub"@, seq![]);
    assert("id_"@ + middle + ".pub"@ =~= "id_"@ + (middle + ".pub"@));
}

/// The build tags the image with the very name that containers are made from, and is given
/// the account and the keys.
pub proof fn law_build(sandbox: SandboxView, sources: Seq<Seq<char>>, context: Seq<char>)
    ensures
        sandbox.build_args(sources, context) == seq![
            "build"@,
            "-t"@,
            sandbox.image,
            "--build-arg"@,
            "SSH_PUBKEY="@ + authorized(sources),
            "--build-arg"@,
            "USERNAME="@ + sandbox.user,
            context,
        ],
{
}

/// The key is made where the ssh configuration says that it is, as an ed25519 key without a
/// passphrase.
pub proof fn law_keygen(
    sandbox: SandboxView,
    existing: Seq<char>,
    domain: Seq<char>,
    ip: Seq<char>,
)
    ensures
        ({
            let command = sandbox.keygen();
            let all = config_lines(
                existing,
                sandbox.name,
                domain,
                ip,
                sandbox.user,
                sandbox.key,
            );
            &&& command.program == "ssh-keygen"@
            &&& command.args == seq![
                "-q"@,
                "-t"@,
                "ed25519"@,
                "-N"@,
                ""@,
                "-C"@,
                tool(),
                "-f"@,
                sandbox.key,
            ]
            &&& all[all.len() - 6] == "  IdentityFile "@ + command.args[8]
        }),
{
    law_own_lines(existing, sandbox.name, domain, ip, sandbox.user, sandbox.key);
}

} // verus!
