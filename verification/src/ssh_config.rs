//! The ssh configuration that the tool manages.
//!
//! It holds one marked block per container, which pins the container's address, and
//! one block of shared defaults.

use vstd::prelude::*;
use vstd::string::*;

use crate::names::{
    ascii_lower, expand, expanded, lemma_expand_around, lemma_expand_first, lemma_expand_plain, lower, tool,
};
use crate::sandbox::Sandbox;
use crate::text::{
    after_prefix, all_of, any_of, chars_of, chomp, ends, find, law_pieces_only, law_split,
    law_trim, lemma_find, lemma_find_is, lemma_lines_have_no_newline,
    lemma_lines_of_unlines, lemma_trim_end, lemma_trim_start, lines, plain_line, same_text,
    split_at_first, split_lines, split_once, starts_with, strip_prefix, texts, trim_end,
    trim_start, trim_white, trimmed, unlines, Pattern,
};

verus! {

/// What a block is for, on the line that begins it.
pub open spec fn begin_tag(line: Seq<char>) -> Option<Seq<char>> {
    after_prefix(line, "# BEGIN "@)
}

/// What a block is for, on the line that ends it.
pub open spec fn end_tag(line: Seq<char>) -> Option<Seq<char>> {
    after_prefix(line, "# END "@)
}

/// Where the last block that begins on line `i` or before it begins; -1 where none
/// does.
pub open spec fn last_begin(ls: Seq<Seq<char>>, i: int) -> int
    decreases i + 1,
{
    if i < 0 {
        -1
    } else if begin_tag(ls[i]) is Some {
        i
    } else {
        last_begin(ls, i - 1)
    }
}

/// Is the tag another project's, neither this container's nor that of the defaults?
pub open spec fn other_tag(tag: Seq<char>, name: Seq<char>) -> bool {
    tag != name && tag != "defaults"@
}

/// Does line `i` belong to another project's block? The last block that begins there
/// or before is another project's, and no block ends from there to before the line.
pub open spec fn in_other_block(ls: Seq<Seq<char>>, name: Seq<char>, i: int) -> bool {
    let j = last_begin(ls, i);
    &&& j >= 0
    &&& other_tag(begin_tag(ls[j])->0, name)
    &&& forall|k: int| j <= k < i ==> end_tag(#[trigger] ls[k]) is None
}

/// Does line `i` belong to a block of the container? The last block that begins there
/// or before is the container's, and none of the container's ends from there to
/// before the line.
pub open spec fn in_own_block(ls: Seq<Seq<char>>, name: Seq<char>, i: int) -> bool {
    let j = last_begin(ls, i);
    &&& j >= 0
    &&& begin_tag(ls[j]) == Some(name)
    &&& forall|k: int| j <= k < i ==> end_tag(#[trigger] ls[k]) != Some(name)
}

/// Of the first `n` lines those of other projects' blocks, in their order.
pub open spec fn other_blocks(ls: Seq<Seq<char>>, name: Seq<char>, n: nat) -> Seq<Seq<char>>
    decreases n,
{
    if n == 0 {
        seq![]
    } else {
        let front = other_blocks(ls, name, (n - 1) as nat);
        if in_other_block(ls, name, n - 1) {
            front.push(ls[n - 1])
        } else {
            front
        }
    }
}

/// Of the first `n` lines those outside the container's blocks, in their order.
pub open spec fn without_own(ls: Seq<Seq<char>>, name: Seq<char>, n: nat) -> Seq<Seq<char>>
    decreases n,
{
    if n == 0 {
        seq![]
    } else {
        let front = without_own(ls, name, (n - 1) as nat);
        if in_own_block(ls, name, n - 1) {
            front
        } else {
            front.push(ls[n - 1])
        }
    }
}

/// The block that pins a container's address.
pub open spec fn own_block(name: Seq<char>, domain: Seq<char>, ip: Seq<char>) -> Seq<Seq<char>> {
    seq![
        "# BEGIN "@ + name,
        "Host "@ + name + "."@ + domain + " "@ + name,
        "  HostName "@ + ip,
        "# END "@ + name,
    ]
}

/// The block of defaults for all containers: who logs in with which key. The host key
/// is new on every boot, so it is not checked.
pub open spec fn defaults_block(
    domain: Seq<char>,
    user: Seq<char>,
    key: Seq<char>,
) -> Seq<Seq<char>> {
    seq![
        "# BEGIN defaults"@,
        expand("Host @-*."@) + domain + expand(" @-*"@),
        "  User "@ + user,
        "  IdentityFile "@ + key,
        "  IdentitiesOnly yes"@,
        "  StrictHostKeyChecking no"@,
        "  UserKnownHostsFile /dev/null"@,
        "  LogLevel ERROR"@,
        "# END defaults"@,
    ]
}

/// The lines that the configuration should have: the other projects' blocks as they
/// are, then the container's block, then the defaults.
pub open spec fn config_lines(
    existing: Seq<char>,
    name: Seq<char>,
    domain: Seq<char>,
    ip: Seq<char>,
    user: Seq<char>,
    key: Seq<char>,
) -> Seq<Seq<char>> {
    other_blocks(lines(existing), name, lines(existing).len()) + own_block(name, domain, ip)
        + defaults_block(domain, user, key)
}

/// What the configuration should say.
pub open spec fn config_text(
    existing: Seq<char>,
    name: Seq<char>,
    domain: Seq<char>,
    ip: Seq<char>,
    user: Seq<char>,
    key: Seq<char>,
) -> Seq<char> {
    unlines(config_lines(existing, name, domain, ip, user, key))
}

/// What the configuration says without the container's block.
pub open spec fn stripped_text(existing: Seq<char>, name: Seq<char>) -> Seq<char> {
    unlines(without_own(lines(existing), name, lines(existing).len()))
}

/// A line that begins no block is in another project's block exactly if the line
/// before it is and ends no block.
proof fn lemma_other_step(ls: Seq<Seq<char>>, name: Seq<char>, i: int)
    requires
        0 <= i < ls.len(),
    ensures
        in_other_block(ls, name, i) == match begin_tag(ls[i]) {
            Some(tag) => other_tag(tag, name),
            None => i > 0 && in_other_block(ls, name, i - 1) && end_tag(ls[i - 1]) is None,
        },
{
    lemma_last_begin(ls, i);
    if i > 0 {
        lemma_last_begin(ls, i - 1);
    }
    if begin_tag(ls[i]) is None && i > 0 {
        let j = last_begin(ls, i);
        assert(j == last_begin(ls, i - 1));
        if in_other_block(ls, name, i) {
            assert(end_tag(ls[i - 1]) is None);
        }
    }
}

/// A line that begins no block is in the container's block exactly if the line before
/// it is and does not end it.
proof fn lemma_own_step(ls: Seq<Seq<char>>, name: Seq<char>, i: int)
    requires
        0 <= i < ls.len(),
    ensures
        in_own_block(ls, name, i) == match begin_tag(ls[i]) {
            Some(tag) => tag == name,
            None => i > 0 && in_own_block(ls, name, i - 1) && end_tag(ls[i - 1]) != Some(name),
        },
{
    lemma_last_begin(ls, i);
    if i > 0 {
        lemma_last_begin(ls, i - 1);
    }
    if begin_tag(ls[i]) is None && i > 0 {
        let j = last_begin(ls, i);
        assert(j == last_begin(ls, i - 1));
        if in_own_block(ls, name, i) {
            assert(end_tag(ls[i - 1]) != Some(name));
        }
    }
}

/// `last_begin` is a line that begins a block.
proof fn lemma_last_begin(ls: Seq<Seq<char>>, i: int)
    ensures
        -1 <= last_begin(ls, i),
        i >= -1 ==> last_begin(ls, i) <= i,
        last_begin(ls, i) >= 0 ==> begin_tag(ls[last_begin(ls, i)]) is Some,
    decreases i + 1,
{
    if i >= 0 && begin_tag(ls[i]) is None {
        lemma_last_begin(ls, i - 1);
    }
}

/// Puts a line at the end of a text.
fn add_line(out: &mut String, line: &str)
    ensures
        final(out)@ == old(out)@ + line@ + seq!['\n'],
{
    out.append(line);
    out.push('\n');
    assert(out@ =~= old(out)@ + line@ + seq!['\n']);
}

/// Puts lines at the end of a text.
fn add_lines(out: &mut String, block: &Vec<String>)
    ensures
        final(out)@ == old(out)@ + unlines(texts(block@)),
{
    let ghost start = out@;
    let ghost all = texts(block@);
    let mut i: usize = 0;
    assert(out@ =~= start + unlines(all.take(0)));
    while i < block.len()
        invariant
            all == texts(block@),
            i <= block@.len(),
            out@ == start + unlines(all.take(i as int)),
        decreases block@.len() - i,
    {
        add_line(out, block[i].as_str());
        proof {
            assert(all.take(i + 1).drop_last() =~= all.take(i as int));
            assert(out@ =~= start + unlines(all.take(i + 1)));
        }
        i += 1;
    }
    assert(all.take(i as int) =~= all);
}

impl Sandbox {
    /// What the managed configuration says once the container's block is dropped.
    pub fn strip_ssh_block(&self, existing: &str) -> (r: String)
        ensures
            r@ == stripped_text(existing@, self@.name),
    {
        let all = split_lines(existing);
        let ghost ls = lines(existing@);
        let ghost name = self@.name;
        let mut kept = String::new();
        let mut skipping = false;
        let mut i: usize = 0;
        assert(unlines(without_own(ls, name, 0)) =~= kept@);
        while i < all.len()
            invariant
                texts(all@) == ls,
                name == self.name@,
                i <= all@.len(),
                kept@ == unlines(without_own(ls, name, i as nat)),
                skipping == (i > 0 && in_own_block(ls, name, i - 1) && end_tag(ls[i - 1]) != Some(
                    name,
                )),
            decreases all@.len() - i,
        {
            let line = all[i].as_str();
            proof {
                assert(line@ == ls[i as int]);
                lemma_own_step(ls, name, i as int);
            }
            if let Some(tag) = strip_prefix(line, "# BEGIN ") {
                skipping = same_text(tag.as_str(), self.name.as_str());
            }
            if !skipping {
                add_line(&mut kept, line);
                proof {
                    let front = without_own(ls, name, i as nat);
                    assert(front.push(ls[i as int]).drop_last() =~= front);
                }
            }
            if let Some(tag) = strip_prefix(line, "# END ") {
                if same_text(tag.as_str(), self.name.as_str()) {
                    skipping = false;
                }
            }
            i += 1;
        }
        kept
    }

    /// The managed configuration as it should be once the container answers at `ip`,
    /// if that is not what it says already.
    pub fn ensure_ssh_config(&self, existing: &str, domain: &str, ip: &str) -> (r: Option<String>)
        ensures
            ({
                let wanted = config_text(
                    existing@,
                    self@.name,
                    domain@,
                    ip@,
                    self@.user,
                    self@.key,
                );
                match r {
                    Some(text) => text@ == wanted && existing@ != wanted,
                    None => existing@ == wanted,
                }
            }),
    {
        let all = split_lines(existing);
        let ghost ls = lines(existing@);
        let ghost name = self@.name;
        let mut text = String::new();
        let mut emit = false;
        let mut i: usize = 0;
        assert(unlines(other_blocks(ls, name, 0)) =~= text@);
        while i < all.len()
            invariant
                texts(all@) == ls,
                name == self.name@,
                i <= all@.len(),
                text@ == unlines(other_blocks(ls, name, i as nat)),
                emit == (i > 0 && in_other_block(ls, name, i - 1) && end_tag(ls[i - 1]) is None),
            decreases all@.len() - i,
        {
            let line = all[i].as_str();
            proof {
                assert(line@ == ls[i as int]);
                lemma_other_step(ls, name, i as int);
            }
            if let Some(tag) = strip_prefix(line, "# BEGIN ") {
                emit = !same_text(tag.as_str(), self.name.as_str()) && !same_text(
                    tag.as_str(),
                    "defaults",
                );
            }
            if emit {
                add_line(&mut text, line);
                proof {
                    let front = other_blocks(ls, name, i as nat);
                    assert(front.push(ls[i as int]).drop_last() =~= front);
                }
            }
            if starts_with(line, "# END ") {
                emit = false;
            }
            i += 1;
        }
        add_lines(&mut text, &self.own_lines(domain, ip));
        add_lines(&mut text, &self.default_lines(domain));
        proof {
            let kept = other_blocks(ls, name, ls.len());
            let own = own_block(name, domain@, ip@);
            crate::text::lemma_unlines_concat(kept, own);
            crate::text::lemma_unlines_concat(
                kept + own,
                defaults_block(domain@, self@.user, self@.key),
            );
        }
        if same_text(existing, text.as_str()) {
            None
        } else {
            Some(text)
        }
    }

    /// The block that pins the container's address.
    fn own_lines(&self, domain: &str, ip: &str) -> (r: Vec<String>)
        ensures
            texts(r@) == own_block(self@.name, domain@, ip@),
    {
        let name = self.name.as_str();
        let r = vec![
            "# BEGIN ".to_owned().concat(name),
            "Host ".to_owned().concat(name).concat(".").concat(domain).concat(" ").concat(name),
            "  HostName ".to_owned().concat(ip),
            "# END ".to_owned().concat(name),
        ];
        assert(texts(r@) =~= own_block(self@.name, domain@, ip@));
        r
    }

    /// The block of defaults.
    fn default_lines(&self, domain: &str) -> (r: Vec<String>)
        ensures
            texts(r@) == defaults_block(domain@, self@.user, self@.key),
    {
        let r = vec![
            "# BEGIN defaults".to_owned(),
            expanded("Host @-*.").concat(domain).concat(expanded(" @-*").as_str()),
            "  User ".to_owned().concat(self.user.as_str()),
            "  IdentityFile ".to_owned().concat(self.key.as_str()),
            "  IdentitiesOnly yes".to_owned(),
            "  StrictHostKeyChecking no".to_owned(),
            "  UserKnownHostsFile /dev/null".to_owned(),
            "  LogLevel ERROR".to_owned(),
            "# END defaults".to_owned(),
        ];
        assert(texts(r@) =~= defaults_block(domain@, self@.user, self@.key));
        r
    }
}

/// A marker's prefix is read back as what it marks.
proof fn lemma_tags(tag: Seq<char>)
    ensures
        begin_tag("# BEGIN "@ + tag) == Some(tag),
        end_tag("# BEGIN "@ + tag) is None,
        begin_tag("# END "@ + tag) is None,
        end_tag("# END "@ + tag) == Some(tag),
{
    reveal_strlit("# BEGIN ");
    reveal_strlit("# END ");
    let b = "# BEGIN "@ + tag;
    let e = "# END "@ + tag;
    assert(b.subrange(0, 8) =~= "# BEGIN "@);
    assert(b.skip(8) =~= tag);
    assert(e.subrange(0, 6) =~= "# END "@);
    assert(e.skip(6) =~= tag);
    assert(b.subrange(0, 6)[2] == 'B');
    if e.len() >= 8 {
        assert(e.subrange(0, 8)[2] == 'E');
    }
}

/// A line that does not start with `#` marks nothing.
proof fn lemma_no_tags(line: Seq<char>)
    requires
        line.len() > 0,
        line[0] != '#',
    ensures
        begin_tag(line) is None,
        end_tag(line) is None,
{
    reveal_strlit("# BEGIN ");
    reveal_strlit("# END ");
    if line.len() >= 8 {
        assert(line.subrange(0, 8)[0] == line[0]);
    }
    if line.len() >= 6 {
        assert(line.subrange(0, 6)[0] == line[0]);
    }
}

/// What the lines of a container's block mark.
proof fn lemma_own_block_tags(name: Seq<char>, domain: Seq<char>, ip: Seq<char>)
    ensures
        ({
            let own = own_block(name, domain, ip);
            &&& begin_tag(own[0]) == Some(name)
            &&& end_tag(own[0]) is None
            &&& forall|k: int| 1 <= k < 4 ==> begin_tag(#[trigger] own[k]) is None
            &&& forall|k: int| 1 <= k < 3 ==> end_tag(#[trigger] own[k]) is None
            &&& end_tag(own[3]) == Some(name)
        }),
{
    lemma_tags(name);
    reveal_strlit("Host ");
    reveal_strlit("  HostName ");
    let own = own_block(name, domain, ip);
    lemma_no_tags(own[1]);
    lemma_no_tags(own[2]);
}

/// What the lines of the defaults mark.
proof fn lemma_defaults_tags(domain: Seq<char>, user: Seq<char>, key: Seq<char>)
    ensures
        ({
            let block = defaults_block(domain, user, key);
            &&& begin_tag(block[0]) == Some("defaults"@)
            &&& forall|k: int| 1 <= k < 9 ==> begin_tag(#[trigger] block[k]) is None
            &&& forall|k: int| 0 <= k < 8 ==> end_tag(#[trigger] block[k]) is None
            &&& end_tag(block[8]) == Some("defaults"@)
        }),
{
    let block = defaults_block(domain, user, key);
    reveal_strlit("# BEGIN ");
    reveal_strlit("# END ");
    reveal_strlit("defaults");
    reveal_strlit("# BEGIN defaults");
    reveal_strlit("# END defaults");
    assert("# BEGIN defaults"@ =~= "# BEGIN "@ + "defaults"@);
    assert("# END defaults"@ =~= "# END "@ + "defaults"@);
    lemma_tags("defaults"@);
    reveal_strlit("Host @-*.");
    lemma_expand_first("Host @-*."@);
    reveal_strlit("  User ");
    reveal_strlit("  IdentityFile ");
    reveal_strlit("  IdentitiesOnly yes");
    reveal_strlit("  StrictHostKeyChecking no");
    reveal_strlit("  UserKnownHostsFile /dev/null");
    reveal_strlit("  LogLevel ERROR");
    assert forall|k: int| 1 <= k < 8 implies begin_tag(#[trigger] block[k]) is None && end_tag(
        block[k],
    ) is None by {
        lemma_no_tags(block[k]);
    }
}

/// Line `k` either begins another project's block or goes on with the one before it.
spec fn marked_at(kept: Seq<Seq<char>>, name: Seq<char>, k: int) -> bool {
    match begin_tag(kept[k]) {
        Some(tag) => other_tag(tag, name),
        None => k > 0 && end_tag(kept[k - 1]) is None,
    }
}

/// Every line either begins another project's block or goes on with the one before it.
spec fn well_marked(kept: Seq<Seq<char>>, name: Seq<char>) -> bool {
    forall|k: int| 0 <= k < kept.len() ==> #[trigger] marked_at(kept, name, k)
}

/// The lines of other projects' blocks are well marked.
proof fn lemma_kept_is_well_marked(ls: Seq<Seq<char>>, name: Seq<char>, n: nat)
    requires
        n <= ls.len(),
    ensures
        well_marked(other_blocks(ls, name, n), name),
        n > 0 && in_other_block(ls, name, n - 1) ==> other_blocks(ls, name, n).len() > 0
            && other_blocks(ls, name, n).last() == ls[n - 1],
        forall|k: int|
            0 <= k < other_blocks(ls, name, n).len() ==> exists|i: int|
                0 <= i < n && ls[i] == #[trigger] other_blocks(ls, name, n)[k],
    decreases n,
{
    if n > 0 {
        let m = (n - 1) as nat;
        lemma_kept_is_well_marked(ls, name, m);
        lemma_other_step(ls, name, n - 1);
        let front = other_blocks(ls, name, m);
        let kept = other_blocks(ls, name, n);
        assert forall|k: int| 0 <= k < kept.len() implies #[trigger] marked_at(kept, name, k) by {
            if k < front.len() {
                assert(marked_at(front, name, k));
                assert(kept[k] == front[k]);
                if k > 0 {
                    assert(kept[k - 1] == front[k - 1]);
                }
            }
        }
        assert forall|k: int| 0 <= k < kept.len() implies exists|i: int|
            0 <= i < n && ls[i] == #[trigger] kept[k] by {
            if k < front.len() {
                assert(kept[k] == front[k]);
                let i = choose|i: int| 0 <= i < m && ls[i] == front[k];
                assert(0 <= i < n && ls[i] == kept[k]);
            } else {
                assert(ls[n - 1] == kept[k]);
            }
        }
    }
}

/// Well-marked lines, with the tool's own blocks behind them, are what is kept of both.
proof fn lemma_keeps_well_marked(
    kept: Seq<Seq<char>>,
    own: Seq<Seq<char>>,
    name: Seq<char>,
    n: nat,
)
    requires
        well_marked(kept, name),
        n <= (kept + own).len(),
        own.len() > 0 ==> begin_tag(own[0]) is Some,
        forall|k: int|
            0 <= k < own.len() ==> match begin_tag(#[trigger] own[k]) {
                Some(tag) => !other_tag(tag, name),
                None => true,
            },
    ensures
        n <= kept.len() ==> other_blocks(kept + own, name, n) == kept.take(n as int),
        n > kept.len() ==> other_blocks(kept + own, name, n) == kept,
        n > 0 ==> in_other_block(kept + own, name, n - 1) == (n <= kept.len()),
    decreases n,
{
    let all = kept + own;
    if n > 0 {
        let m = (n - 1) as nat;
        lemma_keeps_well_marked(kept, own, name, m);
        lemma_other_step(all, name, n - 1);
        if n <= kept.len() {
            assert(marked_at(kept, name, n - 1));
            assert(all[n - 1] == kept[n - 1]);
            if n > 1 {
                assert(all[n - 2] == kept[n - 2]);
            }
            assert(other_blocks(all, name, n) =~= kept.take(n as int));
        } else {
            assert(all[n - 1] == own[n - 1 - kept.len()]);
            assert(kept.take(kept.len() as int) =~= kept);
        }
    } else {
        assert(kept.take(0) =~= seq![]);
    }
}

/// The own block and the defaults are none of another project's.
proof fn lemma_own_lines_are_not_others(
    name: Seq<char>,
    domain: Seq<char>,
    ip: Seq<char>,
    user: Seq<char>,
    key: Seq<char>,
)
    ensures
        ({
            let own = own_block(name, domain, ip) + defaults_block(domain, user, key);
            &&& begin_tag(own[0]) is Some
            &&& forall|k: int|
                0 <= k < own.len() ==> match begin_tag(#[trigger] own[k]) {
                    Some(tag) => !other_tag(tag, name),
                    None => true,
                }
        }),
{
    lemma_own_block_tags(name, domain, ip);
    lemma_defaults_tags(domain, user, key);
    let first = own_block(name, domain, ip);
    let second = defaults_block(domain, user, key);
    let own = first + second;
    assert(own[0] == first[0]);
    assert forall|k: int| 0 <= k < own.len() implies match begin_tag(#[trigger] own[k]) {
        Some(tag) => !other_tag(tag, name),
        None => true,
    } by {
        if k < 4 {
            assert(own[k] == first[k]);
        } else {
            assert(own[k] == second[k - 4]);
        }
    }
}

/// Does no line end in a carriage return?
pub open spec fn no_stray_returns(ls: Seq<Seq<char>>) -> bool {
    forall|k: int| 0 <= k < ls.len() ==> chomp(#[trigger] ls[k]) == ls[k]
}

/// Two texts without a line feed make one without.
proof fn lemma_one_line(a: Seq<char>, b: Seq<char>)
    requires
        !any_of(a, Pattern::Is('\n')),
        !any_of(b, Pattern::Is('\n')),
    ensures
        !any_of(a + b, Pattern::Is('\n')),
{
    let p = Pattern::Is('\n');
    let s = a + b;
    assert forall|k: int| 0 <= k < s.len() implies !p.covers(#[trigger] s[k]) by {
        if k < a.len() {
            assert(s[k] == a[k]);
        } else {
            assert(s[k] == b[k - a.len()]);
        }
    }
}

/// A text without a line feed that ends plain is plain.
proof fn lemma_plain_concat(a: Seq<char>, b: Seq<char>)
    requires
        !any_of(a, Pattern::Is('\n')),
        plain_line(b),
        b.len() > 0 || plain_line(a),
    ensures
        plain_line(a + b),
{
    lemma_one_line(a, b);
    let s = a + b;
    if b.len() > 0 {
        assert(s.last() == b.last());
        if b.last() == '\r' {
            assert(chomp(b).len() != b.len());
        }
    } else {
        assert(s =~= a);
    }
}

/// The lines that the tool writes for a container are plain if what goes into them is.
proof fn lemma_own_lines_are_plain(
    name: Seq<char>,
    domain: Seq<char>,
    ip: Seq<char>,
    user: Seq<char>,
    key: Seq<char>,
)
    requires
        plain_line(name),
        !any_of(domain, Pattern::Is('\n')),
        plain_line(ip),
        plain_line(user),
        plain_line(key),
    ensures
        ({
            let own = own_block(name, domain, ip) + defaults_block(domain, user, key);
            forall|k: int| 0 <= k < own.len() ==> plain_line(#[trigger] own[k])
        }),
{
    let own = own_block(name, domain, ip) + defaults_block(domain, user, key);
    reveal_strlit("# BEGIN ");
    reveal_strlit("# END ");
    reveal_strlit("Host ");
    reveal_strlit(".");
    reveal_strlit(" ");
    reveal_strlit("  HostName ");
    lemma_plain_concat("# BEGIN "@, name);
    lemma_plain_concat("Host "@, name);
    lemma_plain_concat("Host "@ + name, "."@);
    lemma_one_line("Host "@ + name + "."@, domain);
    lemma_plain_concat("Host "@ + name + "."@ + domain, " "@);
    lemma_plain_concat("Host "@ + name + "."@ + domain + " "@, name);
    lemma_plain_concat("  HostName "@, ip);
    lemma_plain_concat("# END "@, name);
    reveal_strlit("# BEGIN defaults");
    reveal_strlit("Host @-*.");
    reveal_strlit(" @-*");
    reveal_strlit("  User ");
    reveal_strlit("  IdentityFile ");
    reveal_strlit("  IdentitiesOnly yes");
    reveal_strlit("  StrictHostKeyChecking no");
    reveal_strlit("  UserKnownHostsFile /dev/null");
    reveal_strlit("  LogLevel ERROR");
    reveal_strlit("# END defaults");
    lemma_expand_plain("Host @-*."@);
    lemma_expand_plain(" @-*"@);
    lemma_one_line(expand("Host @-*."@), domain);
    lemma_expand_first(" @-*"@);
    lemma_plain_concat(expand("Host @-*."@) + domain, expand(" @-*"@));
    lemma_plain_concat("  User "@, user);
    lemma_plain_concat("  IdentityFile "@, key);
}

/// The lines of the configuration, written out, are read back as they were.
proof fn lemma_config_reads_back(
    existing: Seq<char>,
    name: Seq<char>,
    domain: Seq<char>,
    ip: Seq<char>,
    user: Seq<char>,
    key: Seq<char>,
)
    requires
        no_stray_returns(other_blocks(lines(existing), name, lines(existing).len())),
        plain_line(name),
        !any_of(domain, Pattern::Is('\n')),
        plain_line(ip),
        plain_line(user),
        plain_line(key),
    ensures
        lines(config_text(existing, name, domain, ip, user, key)) == config_lines(
            existing,
            name,
            domain,
            ip,
            user,
            key,
        ),
{
    let ls = lines(existing);
    let kept = other_blocks(ls, name, ls.len());
    let own = own_block(name, domain, ip) + defaults_block(domain, user, key);
    let all = config_lines(existing, name, domain, ip, user, key);
    assert(all =~= kept + own);
    lemma_lines_have_no_newline(existing);
    lemma_kept_is_well_marked(ls, name, ls.len());
    lemma_own_lines_are_plain(name, domain, ip, user, key);
    assert forall|k: int| 0 <= k < all.len() implies plain_line(#[trigger] all[k]) by {
        if k < kept.len() {
            assert(all[k] == kept[k]);
            let i = choose|i: int| 0 <= i < ls.len() && ls[i] == kept[k];
            assert(!any_of(ls[i], Pattern::Is('\n')));
            assert(chomp(kept[k]) == kept[k]);
        } else {
            assert(all[k] == own[k - kept.len()]);
        }
    }
    lemma_lines_of_unlines(all, seq![]);
    assert(unlines(all) + seq![] =~= unlines(all));
    assert(all + lines(seq![]) =~= all);
}

/// The configuration settles: once it says what it should, bringing it up to date again
/// changes nothing. (A line that ends in a carriage return loses it when it is read
/// back, so none of those that are kept may.)
pub proof fn law_config_settles(
    existing: Seq<char>,
    name: Seq<char>,
    domain: Seq<char>,
    ip: Seq<char>,
    user: Seq<char>,
    key: Seq<char>,
)
    requires
        no_stray_returns(other_blocks(lines(existing), name, lines(existing).len())),
        plain_line(name),
        !any_of(domain, Pattern::Is('\n')),
        plain_line(ip),
        plain_line(user),
        plain_line(key),
    ensures
        ({
            let once = config_text(existing, name, domain, ip, user, key);
            config_text(once, name, domain, ip, user, key) == once
        }),
{
    law_last_address_counts(existing, name, domain, ip, ip, user, key);
}

/// A recycled address never goes stale: bringing the configuration up to date with one
/// address and then with another is bringing it up to date with the second alone. (A line
/// that ends in a carriage return loses it when it is read back, so none of those that are
/// kept may.)
pub proof fn law_last_address_counts(
    existing: Seq<char>,
    name: Seq<char>,
    domain: Seq<char>,
    first_ip: Seq<char>,
    ip: Seq<char>,
    user: Seq<char>,
    key: Seq<char>,
)
    requires
        no_stray_returns(other_blocks(lines(existing), name, lines(existing).len())),
        plain_line(name),
        !any_of(domain, Pattern::Is('\n')),
        plain_line(first_ip),
        plain_line(user),
        plain_line(key),
    ensures
        ({
            let once = config_text(existing, name, domain, first_ip, user, key);
            config_text(once, name, domain, ip, user, key) == config_text(
                existing,
                name,
                domain,
                ip,
                user,
                key,
            )
        }),
{
    let ls = lines(existing);
    let kept = other_blocks(ls, name, ls.len());
    let own = own_block(name, domain, first_ip) + defaults_block(domain, user, key);
    let all = config_lines(existing, name, domain, first_ip, user, key);
    lemma_config_reads_back(existing, name, domain, first_ip, user, key);
    lemma_kept_is_well_marked(ls, name, ls.len());
    lemma_own_lines_are_not_others(name, domain, first_ip, user, key);
    assert(all =~= kept + own);
    lemma_keeps_well_marked(kept, own, name, all.len());
}

/// A block: the line that begins it, lines that mark nothing, and the line that ends it.
pub open spec fn is_block(block: Seq<Seq<char>>, tag: Seq<char>) -> bool {
    &&& block.len() >= 2
    &&& begin_tag(block[0]) == Some(tag)
    &&& end_tag(block.last()) == Some(tag)
    &&& forall|k: int| 0 < k < block.len() ==> begin_tag(#[trigger] block[k]) is None
    &&& forall|k: int| 0 <= k < block.len() - 1 ==> end_tag(#[trigger] block[k]) is None
}

/// All lines of another project's block are kept, one after the other.
proof fn lemma_block_is_kept(
    before: Seq<Seq<char>>,
    block: Seq<Seq<char>>,
    after: Seq<Seq<char>>,
    name: Seq<char>,
    tag: Seq<char>,
    m: nat,
)
    requires
        is_block(block, tag),
        other_tag(tag, name),
        m <= block.len(),
    ensures
        ({
            let ls = before + block + after;
            &&& other_blocks(ls, name, before.len() + m) == other_blocks(ls, name, before.len())
                + block.take(m as int)
            &&& m > 0 ==> in_other_block(ls, name, before.len() + m - 1)
        }),
    decreases m,
{
    let ls = before + block + after;
    if m > 0 {
        let k = (m - 1) as nat;
        lemma_block_is_kept(before, block, after, name, tag, k);
        assert(ls[before.len() + k as int] == block[k as int]);
        if k > 0 {
            assert(ls[before.len() + k - 1] == block[k - 1]);
        }
        lemma_other_step(ls, name, before.len() + k as int);
        assert(block.take(m as int) =~= block.take(k as int).push(block[k as int]));
        assert(other_blocks(ls, name, before.len() + m) =~= other_blocks(ls, name, before.len())
            + block.take(m as int));
    } else {
        assert(block.take(0) =~= seq![]);
        assert(other_blocks(ls, name, before.len()) + block.take(0) =~= other_blocks(
            ls,
            name,
            before.len(),
        ));
    }
}

/// What is kept of more lines starts with what is kept of fewer.
proof fn lemma_kept_grows(ls: Seq<Seq<char>>, name: Seq<char>, m: nat, n: nat)
    requires
        m <= n <= ls.len(),
    ensures
        exists|rest: Seq<Seq<char>>|
            other_blocks(ls, name, n) == #[trigger] (other_blocks(ls, name, m) + rest),
    decreases n - m,
{
    if m == n {
        let none: Seq<Seq<char>> = seq![];
        assert(other_blocks(ls, name, n) =~= other_blocks(ls, name, m) + none);
    } else {
        let k = (n - 1) as nat;
        lemma_kept_grows(ls, name, m, k);
        let rest = choose|rest: Seq<Seq<char>>|
            other_blocks(ls, name, k) == #[trigger] (other_blocks(ls, name, m) + rest);
        if in_other_block(ls, name, n - 1) {
            assert(other_blocks(ls, name, n) =~= other_blocks(ls, name, m) + rest.push(ls[n - 1]));
        } else {
            assert(other_blocks(ls, name, n) =~= other_blocks(ls, name, m) + rest);
        }
    }
}

/// Blocks of other projects are preserved: a block that stood in the configuration
/// stands in the new one, whole and in one piece, before the tool's own blocks.
pub proof fn law_other_blocks_are_preserved(
    existing: Seq<char>,
    before: Seq<Seq<char>>,
    block: Seq<Seq<char>>,
    after: Seq<Seq<char>>,
    tag: Seq<char>,
    name: Seq<char>,
    domain: Seq<char>,
    ip: Seq<char>,
    user: Seq<char>,
    key: Seq<char>,
)
    requires
        lines(existing) == before + block + after,
        is_block(block, tag),
        other_tag(tag, name),
    ensures
        exists|front: Seq<Seq<char>>, rest: Seq<Seq<char>>|
            config_lines(existing, name, domain, ip, user, key) == #[trigger] (front + block
                + rest),
{
    let ls = lines(existing);
    let own = own_block(name, domain, ip) + defaults_block(domain, user, key);
    lemma_block_is_kept(before, block, after, name, tag, block.len());
    assert(block.take(block.len() as int) =~= block);
    let n = before.len() + block.len();
    lemma_kept_grows(ls, name, n, ls.len());
    let front = other_blocks(ls, name, before.len());
    let more = choose|rest: Seq<Seq<char>>|
        other_blocks(ls, name, ls.len()) == #[trigger] (other_blocks(ls, name, n) + rest);
    let rest = more + own;
    assert(config_lines(existing, name, domain, ip, user, key) =~= front + block + rest);
}

/// A container has one block: exactly one line of the configuration begins a block of
/// the container, and what follows it there is the block that pins its address.
pub proof fn law_one_block_per_container(
    existing: Seq<char>,
    name: Seq<char>,
    domain: Seq<char>,
    ip: Seq<char>,
    user: Seq<char>,
    key: Seq<char>,
)
    requires
        name != "defaults"@,
    ensures
        ({
            let all = config_lines(existing, name, domain, ip, user, key);
            let at = other_blocks(lines(existing), name, lines(existing).len()).len() as int;
            &&& forall|k: int|
                0 <= k < all.len() ==> (begin_tag(#[trigger] all[k]) == Some(name) <==> k == at)
            &&& all.subrange(at, at + 4) == own_block(name, domain, ip)
            &&& is_block(own_block(name, domain, ip), name)
        }),
{
    let ls = lines(existing);
    let kept = other_blocks(ls, name, ls.len());
    let first = own_block(name, domain, ip);
    let second = defaults_block(domain, user, key);
    let all = config_lines(existing, name, domain, ip, user, key);
    let at = kept.len() as int;
    lemma_kept_is_well_marked(ls, name, ls.len());
    lemma_own_block_tags(name, domain, ip);
    lemma_defaults_tags(domain, user, key);
    assert forall|k: int| 0 <= k < all.len() implies (begin_tag(#[trigger] all[k]) == Some(name)
        <==> k == at) by {
        if k < at {
            assert(marked_at(kept, name, k));
            assert(all[k] == kept[k]);
        } else if k < at + 4 {
            assert(all[k] == first[k - at]);
        } else {
            assert(all[k] == second[k - at - 4]);
        }
    }
    assert(all.subrange(at, at + 4) =~= first);
}

/// Nothing of what is left begins a block of the container.
proof fn lemma_stripped_begins_none(ls: Seq<Seq<char>>, name: Seq<char>, n: nat)
    requires
        n <= ls.len(),
    ensures
        forall|k: int|
            0 <= k < without_own(ls, name, n).len() ==> begin_tag(
                #[trigger] without_own(ls, name, n)[k],
            ) != Some(name),
        forall|k: int|
            0 <= k < without_own(ls, name, n).len() ==> exists|i: int|
                0 <= i < n && ls[i] == #[trigger] without_own(ls, name, n)[k],
    decreases n,
{
    if n > 0 {
        let m = (n - 1) as nat;
        lemma_stripped_begins_none(ls, name, m);
        lemma_own_step(ls, name, n - 1);
        let front = without_own(ls, name, m);
        let left = without_own(ls, name, n);
        assert forall|k: int| 0 <= k < left.len() implies begin_tag(#[trigger] left[k]) != Some(
            name,
        ) by {
            if k < front.len() {
                assert(left[k] == front[k]);
            }
        }
        assert forall|k: int| 0 <= k < left.len() implies exists|i: int|
            0 <= i < n && ls[i] == #[trigger] left[k] by {
            if k < front.len() {
                assert(left[k] == front[k]);
                let i = choose|i: int| 0 <= i < m && ls[i] == front[k];
                assert(0 <= i < n && ls[i] == left[k]);
            } else {
                assert(ls[n - 1] == left[k]);
            }
        }
    }
}

/// Where no line begins a block of the container, every line is left.
proof fn lemma_nothing_to_strip(ls: Seq<Seq<char>>, name: Seq<char>, n: nat)
    requires
        n <= ls.len(),
        forall|k: int| 0 <= k < ls.len() ==> begin_tag(#[trigger] ls[k]) != Some(name),
    ensures
        without_own(ls, name, n) == ls.take(n as int),
        n > 0 ==> !in_own_block(ls, name, n - 1),
    decreases n,
{
    if n > 0 {
        let m = (n - 1) as nat;
        lemma_nothing_to_strip(ls, name, m);
        lemma_own_step(ls, name, n - 1);
        assert(without_own(ls, name, n) =~= ls.take(n as int));
    } else {
        assert(ls.take(0) =~= seq![]);
    }
}

/// Deleting a machine drops its block: no line that is left begins a block of the
/// container.
pub proof fn law_strip_drops_the_block(existing: Seq<char>, name: Seq<char>)
    ensures
        ({
            let left = without_own(lines(existing), name, lines(existing).len());
            forall|k: int|
                0 <= k < left.len() ==> begin_tag(#[trigger] left[k]) != Some(name)
        }),
{
    lemma_stripped_begins_none(lines(existing), name, lines(existing).len());
}

/// Dropping a block twice is dropping it once. (A line that ends in a carriage return
/// loses it when it is read back, so none of those that are left may.)
pub proof fn law_strip_settles(existing: Seq<char>, name: Seq<char>)
    requires
        no_stray_returns(without_own(lines(existing), name, lines(existing).len())),
    ensures
        stripped_text(stripped_text(existing, name), name) == stripped_text(existing, name),
{
    let ls = lines(existing);
    let left = without_own(ls, name, ls.len());
    lemma_lines_have_no_newline(existing);
    lemma_stripped_begins_none(ls, name, ls.len());
    assert forall|k: int| 0 <= k < left.len() implies plain_line(#[trigger] left[k]) by {
        let i = choose|i: int| 0 <= i < ls.len() && ls[i] == left[k];
        assert(!any_of(ls[i], Pattern::Is('\n')));
        assert(chomp(left[k]) == left[k]);
    }
    lemma_lines_of_unlines(left, seq![]);
    assert(unlines(left) + seq![] =~= unlines(left));
    assert(left + lines(seq![]) =~= left);
    lemma_nothing_to_strip(left, name, left.len());
    assert(left.take(left.len() as int) =~= left);
}

/// What is left of lines without a block of the container, the container's block, and
/// more lines without one.
proof fn lemma_strip_between(
    before: Seq<Seq<char>>,
    own: Seq<Seq<char>>,
    after: Seq<Seq<char>>,
    name: Seq<char>,
    n: nat,
)
    requires
        is_block(own, name),
        forall|k: int| 0 <= k < before.len() ==> begin_tag(#[trigger] before[k]) != Some(name),
        forall|k: int| 0 <= k < after.len() ==> begin_tag(#[trigger] after[k]) != Some(name),
        n <= before.len() + own.len() + after.len(),
    ensures
        ({
            let all = before + own + after;
            let skip = before.len() + own.len();
            &&& n <= before.len() ==> without_own(all, name, n) == before.take(n as int)
            &&& before.len() < n <= skip ==> without_own(all, name, n) == before
            &&& skip < n ==> without_own(all, name, n) == before + after.take(n - skip)
            &&& n > 0 ==> in_own_block(all, name, n - 1) == (before.len() < n <= skip)
        }),
    decreases n,
{
    let all = before + own + after;
    let skip = before.len() + own.len();
    if n == 0 {
        assert(before.take(0) =~= seq![]);
    } else {
        let m = (n - 1) as nat;
        lemma_strip_between(before, own, after, name, m);
        lemma_own_step(all, name, n - 1);
        if n <= before.len() {
            assert(all[n - 1] == before[n - 1]);
            assert(without_own(all, name, n) =~= before.take(n as int));
        } else if n <= skip {
            let k = n - 1 - before.len();
            assert(all[n - 1] == own[k]);
            if k > 0 {
                assert(all[n - 2] == own[k - 1]);
            }
            assert(before.take(before.len() as int) =~= before);
        } else {
            let k = n - 1 - skip;
            assert(all[n - 1] == after[k]);
            if k == 0 {
                assert(all[n - 2] == own[own.len() - 1]);
            }
            assert(without_own(all, name, n) =~= before + after.take(n - skip));
        }
    }
}

/// Deleting a machine undoes what starting it wrote: what is left are the other
/// projects' blocks and the defaults.
pub proof fn law_strip_undoes_the_pin(
    existing: Seq<char>,
    name: Seq<char>,
    domain: Seq<char>,
    ip: Seq<char>,
    user: Seq<char>,
    key: Seq<char>,
)
    requires
        name != "defaults"@,
        no_stray_returns(other_blocks(lines(existing), name, lines(existing).len())),
        plain_line(name),
        !any_of(domain, Pattern::Is('\n')),
        plain_line(ip),
        plain_line(user),
        plain_line(key),
    ensures
        stripped_text(config_text(existing, name, domain, ip, user, key), name) == unlines(
            other_blocks(lines(existing), name, lines(existing).len()) + defaults_block(
                domain,
                user,
                key,
            ),
        ),
{
    let ls = lines(existing);
    let kept = other_blocks(ls, name, ls.len());
    let own = own_block(name, domain, ip);
    let rest = defaults_block(domain, user, key);
    let all = config_lines(existing, name, domain, ip, user, key);
    lemma_config_reads_back(existing, name, domain, ip, user, key);
    law_one_block_per_container(existing, name, domain, ip, user, key);
    lemma_kept_is_well_marked(ls, name, ls.len());
    lemma_defaults_tags(domain, user, key);
    assert forall|k: int| 0 <= k < kept.len() implies begin_tag(#[trigger] kept[k]) != Some(
        name,
    ) by {
        assert(marked_at(kept, name, k));
    }
    lemma_strip_between(kept, own, rest, name, all.len());
    assert(rest.take(rest.len() as int) =~= rest);
}

/// Starting a machine and deleting it leaves no trace: the configuration that another
/// project's start left, without a block of this container, comes back as it was, character
/// for character. (A line that ends in a carriage return loses it when it is read back, so
/// none of those that are kept may.)
pub proof fn law_strip_gives_the_file_back(
    existing: Seq<char>,
    other: Seq<char>,
    other_ip: Seq<char>,
    name: Seq<char>,
    ip: Seq<char>,
    domain: Seq<char>,
    user: Seq<char>,
    key: Seq<char>,
)
    requires
        name != other,
        name != "defaults"@,
        other != "defaults"@,
        no_stray_returns(other_blocks(lines(existing), other, lines(existing).len())),
        ({
            let file = config_text(existing, other, domain, other_ip, user, key);
            forall|k: int|
                0 <= k < lines(file).len() ==> begin_tag(#[trigger] lines(file)[k]) != Some(name)
        }),
        plain_line(other),
        plain_line(other_ip),
        plain_line(name),
        plain_line(ip),
        !any_of(domain, Pattern::Is('\n')),
        plain_line(user),
        plain_line(key),
    ensures
        ({
            let file = config_text(existing, other, domain, other_ip, user, key);
            stripped_text(config_text(file, name, domain, ip, user, key), name) == file
        }),
{
    let ls = lines(existing);
    let kept = other_blocks(ls, other, ls.len());
    let theirs = own_block(other, domain, other_ip);
    let rest = defaults_block(domain, user, key);
    let file = config_text(existing, other, domain, other_ip, user, key);
    let all = lines(file);
    let both = kept + theirs;
    lemma_config_reads_back(existing, other, domain, other_ip, user, key);
    lemma_kept_is_well_marked(ls, other, ls.len());
    lemma_own_block_tags(other, domain, other_ip);
    lemma_defaults_tags(domain, user, key);
    lemma_own_lines_are_plain(other, domain, other_ip, user, key);
    assert(all =~= both + rest);
    assert forall|k: int| 0 <= k < both.len() implies #[trigger] marked_at(both, name, k) by {
        assert(all[k] == both[k]);
        if k < kept.len() {
            assert(marked_at(kept, other, k));
            assert(both[k] == kept[k]);
            if k > 0 {
                assert(both[k - 1] == kept[k - 1]);
            }
        } else {
            assert(both[k] == theirs[k - kept.len()]);
            if k > kept.len() {
                assert(both[k - 1] == theirs[k - 1 - kept.len()]);
            }
        }
    }
    lemma_keeps_well_marked(both, rest, name, all.len());
    assert forall|k: int| 0 <= k < both.len() implies chomp(#[trigger] both[k]) == both[k] by {
        if k < kept.len() {
            assert(both[k] == kept[k]);
        } else {
            assert(both[k] == (theirs + rest)[k - kept.len()]);
        }
    }
    law_strip_undoes_the_pin(file, name, domain, ip, user, key);
    assert(config_lines(existing, other, domain, other_ip, user, key) =~= both + rest);
}

/// None of the lines of another project's block is dropped.
proof fn lemma_block_is_left(
    before: Seq<Seq<char>>,
    block: Seq<Seq<char>>,
    after: Seq<Seq<char>>,
    name: Seq<char>,
    tag: Seq<char>,
    m: nat,
)
    requires
        is_block(block, tag),
        tag != name,
        m <= block.len(),
    ensures
        ({
            let ls = before + block + after;
            &&& without_own(ls, name, before.len() + m) == without_own(ls, name, before.len())
                + block.take(m as int)
            &&& m > 0 ==> !in_own_block(ls, name, before.len() + m - 1)
        }),
    decreases m,
{
    let ls = before + block + after;
    if m > 0 {
        let k = (m - 1) as nat;
        lemma_block_is_left(before, block, after, name, tag, k);
        assert(ls[before.len() + k as int] == block[k as int]);
        lemma_own_step(ls, name, before.len() + k as int);
        assert(block.take(m as int) =~= block.take(k as int).push(block[k as int]));
        assert(without_own(ls, name, before.len() + m) =~= without_own(ls, name, before.len())
            + block.take(m as int));
    } else {
        assert(block.take(0) =~= seq![]);
        assert(without_own(ls, name, before.len()) + block.take(0) =~= without_own(
            ls,
            name,
            before.len(),
        ));
    }
}

/// What is left of more lines starts with what is left of fewer.
proof fn lemma_left_grows(ls: Seq<Seq<char>>, name: Seq<char>, m: nat, n: nat)
    requires
        m <= n <= ls.len(),
    ensures
        exists|rest: Seq<Seq<char>>|
            without_own(ls, name, n) == #[trigger] (without_own(ls, name, m) + rest),
    decreases n - m,
{
    if m == n {
        let none: Seq<Seq<char>> = seq![];
        assert(without_own(ls, name, n) =~= without_own(ls, name, m) + none);
    } else {
        let k = (n - 1) as nat;
        lemma_left_grows(ls, name, m, k);
        let rest = choose|rest: Seq<Seq<char>>|
            without_own(ls, name, k) == #[trigger] (without_own(ls, name, m) + rest);
        if in_own_block(ls, name, n - 1) {
            assert(without_own(ls, name, n) =~= without_own(ls, name, m) + rest);
        } else {
            assert(without_own(ls, name, n) =~= without_own(ls, name, m) + rest.push(ls[n - 1]));
        }
    }
}

/// Deleting a machine leaves the other projects alone: their blocks are left whole and
/// in one piece.
pub proof fn law_strip_leaves_other_blocks(
    existing: Seq<char>,
    before: Seq<Seq<char>>,
    block: Seq<Seq<char>>,
    after: Seq<Seq<char>>,
    tag: Seq<char>,
    name: Seq<char>,
)
    requires
        lines(existing) == before + block + after,
        is_block(block, tag),
        tag != name,
    ensures
        exists|front: Seq<Seq<char>>, rest: Seq<Seq<char>>|
            without_own(lines(existing), name, lines(existing).len()) == #[trigger] (front + block
                + rest),
{
    let ls = lines(existing);
    lemma_block_is_left(before, block, after, name, tag, block.len());
    assert(block.take(block.len() as int) =~= block);
    let n = before.len() + block.len();
    lemma_left_grows(ls, name, n, ls.len());
    let front = without_own(ls, name, before.len());
    let rest = choose|rest: Seq<Seq<char>>|
        without_own(ls, name, ls.len()) == #[trigger] (without_own(ls, name, n) + rest);
    assert(without_own(ls, name, ls.len()) =~= front + block + rest);
}

/// Is the text the word, in whatever case?
pub open spec fn same_word(s: Seq<char>, word: Seq<char>) -> bool {
    s.len() == word.len() && forall|k: int|
        0 <= k < s.len() ==> ascii_lower(#[trigger] s[k]) == ascii_lower(word[k])
}

/// Is the text the word, in whatever case?
fn equals_ignoring_case(s: &str, word: &str) -> (r: bool)
    ensures
        r == same_word(s@, word@),
{
    let a = chars_of(s);
    let b = chars_of(word);
    if a.len() != b.len() {
        return false;
    }
    let mut i: usize = 0;
    while i < a.len()
        invariant
            a@ == s@,
            b@ == word@,
            a@.len() == b@.len(),
            i <= a@.len(),
            forall|k: int| 0 <= k < i ==> ascii_lower(#[trigger] a@[k]) == ascii_lower(b@[k]),
        decreases a@.len() - i,
    {
        if lower(a[i]) != lower(b[i]) {
            return false;
        }
        i += 1;
    }
    true
}

/// Does a line of the user's own ssh configuration pull in the managed file? Indentation
/// and the case of the keyword do not matter.
pub open spec fn includes(line: Seq<char>, target: Seq<char>) -> bool {
    match split_once(trimmed(line), Pattern::White) {
        Some((keyword, value)) => same_word(keyword, "include"@) && trimmed(value) == target,
        None => false,
    }
}

/// Does any line of the user's own ssh configuration pull in the managed file?
pub open spec fn included(existing: Seq<char>, target: Seq<char>) -> bool {
    exists|k: int| 0 <= k < lines(existing).len() && includes(#[trigger] lines(existing)[k], target)
}

/// The user's own ssh configuration with the managed file pulled in first.
pub open spec fn with_include(existing: Seq<char>, target: Seq<char>) -> Seq<char> {
    "Include "@ + target + "\n"@ + existing
}

impl Sandbox {
    /// The user's own ssh configuration as it should be, if it does not pull in the
    /// managed file yet.
    pub fn ensure_include(&self, existing: &str) -> (r: Option<String>)
        ensures
            match r {
                Some(text) => {
                    &&& !included(existing@, self@.ssh_conf)
                    &&& text@ == with_include(existing@, self@.ssh_conf)
                },
                None => included(existing@, self@.ssh_conf),
            },
    {
        let target = self.ssh_conf.as_str();
        let all = split_lines(existing);
        let ghost ls = lines(existing@);
        let mut i: usize = 0;
        while i < all.len()
            invariant
                texts(all@) == ls,
                ls == lines(existing@),
                target@ == self@.ssh_conf,
                i <= all@.len(),
                forall|k: int| 0 <= k < i ==> !includes(#[trigger] ls[k], target@),
            decreases all@.len() - i,
        {
            assert(ls[i as int] == all@[i as int]@);
            if let Some((keyword, value)) = split_at_first(
                trim_white(all[i].as_str()).as_str(),
                Pattern::White,
            ) {
                if equals_ignoring_case(keyword.as_str(), "include") && same_text(
                    trim_white(value.as_str()).as_str(),
                    target,
                ) {
                    assert(includes(ls[i as int], target@));
                    return None;
                }
            }
            i += 1;
        }
        Some("Include ".to_owned().concat(target).concat("\n").concat(existing))
    }
}

/// The managed file is pulled in once: a configuration that was made to pull it in does,
/// and is not made to again. The path must be readable from a line, that is, neither
/// empty nor with a line feed in it nor with white space at an end.
pub proof fn law_include_settles(existing: Seq<char>, target: Seq<char>)
    requires
        target.len() > 0,
        trimmed(target) == target,
        !any_of(target, Pattern::Is('\n')),
    ensures
        included(with_include(existing, target), target),
        forall|k: int|
            0 <= k < existing.len() ==> with_include(existing, target)[with_include(
                existing,
                target,
            ).len() - existing.len() + k] == #[trigger] existing[k],
{
    reveal_strlit("Include ");
    reveal_strlit("include");
    reveal_strlit("\n");
    let white = Pattern::White;
    let line = "Include "@ + target;
    let whole = with_include(existing, target);
    lemma_trim_ends(target);
    assert(line[0] == 'I');
    assert(line.last() == target.last());
    assert(line.skip(8) =~= target);
    assert(line.take(7) =~= "Include "@.take(7));
    assert(trim_start(line, white) == line);
    assert(trimmed(line) == line);
    assert forall|k: int| 0 <= k < 7 implies !is_white_at(line, k) by {
        assert(line[k] == "Include "@[k]);
    }
    assert(line[7] == ' ');
    lemma_find_is(line, white, 7);
    assert(same_word(line.take(7), "include"@)) by {
        assert forall|k: int| 0 <= k < 7 implies ascii_lower(#[trigger] line.take(7)[k])
            == ascii_lower("include"@[k]) by {
            assert(line.take(7)[k] == "Include "@[k]);
        }
    }
    assert(includes(line, target));
    let n = line.len() as int;
    assert forall|k: int| 0 <= k < n implies !Pattern::Is('\n').covers(#[trigger] whole[k]) by {
        assert(whole[k] == line[k]);
        if k >= 8 {
            assert(line[k] == target[k - 8]);
        } else {
            assert(line[k] == "Include "@[k]);
        }
    }
    lemma_find_is(whole, Pattern::Is('\n'), n);
    assert(whole.take(n) =~= line);
    assert(chomp(line) == line);
    assert(lines(whole)[0] == line);
}

/// Is the character at that place white space?
spec fn is_white_at(s: Seq<char>, k: int) -> bool {
    Pattern::White.covers(s[k])
}

/// A text that trimming leaves as it is has no white space at either end.
proof fn lemma_trim_ends(s: Seq<char>)
    requires
        s.len() > 0,
        trimmed(s) == s,
    ensures
        !Pattern::White.covers(s[0]),
        !Pattern::White.covers(s.last()),
{
    let white = Pattern::White;
    lemma_trim_start(s, white);
    lemma_trim_end(trim_start(s, white), white);
}

/// What the tool's own lines say, at the end of every configuration that it writes: the
/// container's block, with its names and its very address, and the defaults, with the very
/// user and key, and a host key that is not checked.
pub proof fn law_own_lines(
    existing: Seq<char>,
    name: Seq<char>,
    domain: Seq<char>,
    ip: Seq<char>,
    user: Seq<char>,
    key: Seq<char>,
)
    ensures
        ({
            let all = config_lines(existing, name, domain, ip, user, key);
            let n = all.len() as int;
            &&& n >= 13
            &&& all[n - 13] == "# BEGIN "@ + name
            &&& all[n - 12] == "Host "@ + name + "."@ + domain + " "@ + name
            &&& all[n - 11] == "  HostName "@ + ip
            &&& all[n - 10] == "# END "@ + name
            &&& all[n - 9] == "# BEGIN defaults"@
            &&& all[n - 8] == "Host "@ + tool() + "-*."@ + domain + " "@ + tool() + "-*"@
            &&& all[n - 7] == "  User "@ + user
            &&& all[n - 6] == "  IdentityFile "@ + key
            &&& all[n - 5] == "  IdentitiesOnly yes"@
            &&& all[n - 4] == "  StrictHostKeyChecking no"@
            &&& all[n - 3] == "  UserKnownHostsFile /dev/null"@
            &&& all[n - 2] == "  LogLevel ERROR"@
            &&& all[n - 1] == "# END defaults"@
            &&& config_text(existing, name, domain, ip, user, key) == unlines(all)
        }),
{
    let kept = other_blocks(lines(existing), name, lines(existing).len());
    let own = own_block(name, domain, ip);
    let rest = defaults_block(domain, user, key);
    let all = config_lines(existing, name, domain, ip, user, key);
    let n = all.len() as int;
    assert(all[n - 13] == own[0]);
    assert(all[n - 12] == own[1]);
    assert(all[n - 11] == own[2]);
    assert(all[n - 10] == own[3]);
    assert(all[n - 9] == rest[0]);
    assert(all[n - 8] == rest[1]);
    assert(all[n - 7] == rest[2]);
    assert(all[n - 6] == rest[3]);
    assert(all[n - 5] == rest[4]);
    assert(all[n - 4] == rest[5]);
    assert(all[n - 3] == rest[6]);
    assert(all[n - 2] == rest[7]);
    assert(all[n - 1] == rest[8]);
    lemma_default_patterns();
    assert(all[n - 8] =~= "Host "@ + tool() + "-*."@ + domain + " "@ + tool() + "-*"@);
}

/// What the templates of the defaults' patterns stand for.
proof fn lemma_default_patterns()
    ensures
        expand("Host @-*."@) == "Host "@ + tool() + "-*."@,
        expand(" @-*"@) == " "@ + tool() + "-*"@,
{
    reveal_strlit("Host @-*.");
    reveal_strlit(" @-*");
    reveal_strlit("Host ");
    reveal_strlit(" ");
    reveal_strlit("-*.");
    reveal_strlit("-*");
    lemma_expand_around("Host "@, '@', "-*."@);
    lemma_expand_around(" "@, '@', "-*"@);
    assert("Host @-*."@ =~= "Host "@ + seq!['@'] + "-*."@);
    assert(" @-*"@ =~= " "@ + seq!['@'] + "-*"@);
}

/// A line that begins or ends a block names it behind its mark, and a line with one mark
/// does not have the other.
pub proof fn law_marks(tag: Seq<char>, line: Seq<char>)
    ensures
        begin_tag("# BEGIN "@ + tag) == Some(tag),
        end_tag("# END "@ + tag) == Some(tag),
        begin_tag("# END "@ + tag) is None,
        end_tag("# BEGIN "@ + tag) is None,
        begin_tag(line) is Some ==> line == "# BEGIN "@ + begin_tag(line)->0,
        end_tag(line) is Some ==> line == "# END "@ + end_tag(line)->0,
{
    lemma_tags(tag);
    law_pieces_only(line, "# BEGIN "@);
    law_pieces_only(line, "# END "@);
}

/// What is kept of lines behind lines that leave no block open.
proof fn lemma_kept_behind(
    front: Seq<Seq<char>>,
    after: Seq<Seq<char>>,
    name: Seq<char>,
    n: nat,
)
    requires
        n <= after.len(),
        front.len() > 0 ==> !in_other_block(front + after, name, front.len() - 1) || end_tag(
            front.last(),
        ) is Some,
    ensures
        other_blocks(front + after, name, front.len() + n) == other_blocks(
            front + after,
            name,
            front.len(),
        ) + other_blocks(after, name, n),
        n > 0 ==> in_other_block(front + after, name, front.len() + n - 1) == in_other_block(
            after,
            name,
            n - 1,
        ),
    decreases n,
{
    let all = front + after;
    let base = other_blocks(all, name, front.len());
    if n > 0 {
        let m = (n - 1) as nat;
        lemma_kept_behind(front, after, name, m);
        lemma_other_step(all, name, front.len() + m as int);
        lemma_other_step(after, name, m as int);
        assert(all[front.len() + m as int] == after[m as int]);
        if m > 0 {
            assert(all[front.len() + m - 1] == after[m - 1]);
        } else if front.len() > 0 {
            assert(all[front.len() - 1] == front[front.len() - 1]);
        }
        assert(other_blocks(all, name, front.len() + n) =~= base + other_blocks(after, name, n));
    } else {
        assert(base + other_blocks(after, name, 0) =~= base);
    }
}

/// Of a configuration that begins with a block, the block is kept if it is another
/// project's, whole, and goes if it is the container's or that of the defaults; of what
/// follows the same is kept as without the block.
pub proof fn law_kept_block_by_block(
    block: Seq<Seq<char>>,
    tag: Seq<char>,
    after: Seq<Seq<char>>,
    name: Seq<char>,
)
    requires
        is_block(block, tag),
    ensures
        ({
            let all = block + after;
            other_blocks(all, name, all.len()) == (if tag != name && tag != "defaults"@ {
                block
            } else {
                seq![]
            }) + other_blocks(after, name, after.len())
        }),
{
    let all = block + after;
    if tag != name && tag != "defaults"@ {
        let none: Seq<Seq<char>> = seq![];
        lemma_block_is_kept(none, block, after, name, tag, block.len());
        assert(none + block + after =~= all);
        assert(block.take(block.len() as int) =~= block);
        assert(other_blocks(all, name, 0) + block =~= block);
    } else {
        lemma_block_goes(block, tag, after, name, block.len());
    }
    lemma_kept_behind(block, after, name, after.len());
}

/// Nothing is kept of a block of the container or of the defaults.
proof fn lemma_block_goes(
    block: Seq<Seq<char>>,
    tag: Seq<char>,
    after: Seq<Seq<char>>,
    name: Seq<char>,
    m: nat,
)
    requires
        is_block(block, tag),
        !other_tag(tag, name),
        m <= block.len(),
    ensures
        other_blocks(block + after, name, m) == Seq::<Seq<char>>::empty(),
        m > 0 ==> !in_other_block(block + after, name, m - 1),
    decreases m,
{
    let all = block + after;
    if m > 0 {
        lemma_block_goes(block, tag, after, name, (m - 1) as nat);
        assert(all[m - 1] == block[m - 1]);
        lemma_other_step(all, name, m - 1);
    }
}

/// A line that begins no block, and stands in none, goes; of what follows the same is kept
/// as without the line.
pub proof fn law_unmarked_line_goes(line: Seq<char>, after: Seq<Seq<char>>, name: Seq<char>)
    requires
        begin_tag(line) is None,
    ensures
        ({
            let all = seq![line] + after;
            other_blocks(all, name, all.len()) == other_blocks(after, name, after.len())
        }),
        other_blocks(Seq::<Seq<char>>::empty(), name, 0) == Seq::<Seq<char>>::empty(),
{
    let front = seq![line];
    let all = front + after;
    assert(all[0] == line);
    lemma_other_step(all, name, 0);
    reveal_with_fuel(other_blocks, 2);
    assert(other_blocks(all, name, 1) =~= seq![]);
    lemma_kept_behind(front, after, name, after.len());
    assert(other_blocks(all, name, all.len()) =~= other_blocks(after, name, after.len()));
}

/// What is left of lines behind lines that leave no block of the container open.
proof fn lemma_left_behind(
    front: Seq<Seq<char>>,
    after: Seq<Seq<char>>,
    name: Seq<char>,
    n: nat,
)
    requires
        n <= after.len(),
        front.len() > 0 ==> !in_own_block(front + after, name, front.len() - 1) || end_tag(
            front.last(),
        ) == Some(name),
    ensures
        without_own(front + after, name, front.len() + n) == without_own(
            front + after,
            name,
            front.len(),
        ) + without_own(after, name, n),
        n > 0 ==> in_own_block(front + after, name, front.len() + n - 1) == in_own_block(
            after,
            name,
            n - 1,
        ),
    decreases n,
{
    let all = front + after;
    let base = without_own(all, name, front.len());
    if n > 0 {
        let m = (n - 1) as nat;
        lemma_left_behind(front, after, name, m);
        lemma_own_step(all, name, front.len() + m as int);
        lemma_own_step(after, name, m as int);
        assert(all[front.len() + m as int] == after[m as int]);
        if m > 0 {
            assert(all[front.len() + m - 1] == after[m - 1]);
        } else if front.len() > 0 {
            assert(all[front.len() - 1] == front[front.len() - 1]);
        }
        assert(without_own(all, name, front.len() + n) =~= base + without_own(after, name, n));
    } else {
        assert(base + without_own(after, name, 0) =~= base);
    }
}

/// Deleting takes the container's blocks out, whole, and nothing else: of a configuration
/// that begins with a block, the block goes exactly if it is the container's, and of what
/// follows the same is left as without the block.
pub proof fn law_left_block_by_block(
    block: Seq<Seq<char>>,
    tag: Seq<char>,
    after: Seq<Seq<char>>,
    name: Seq<char>,
)
    requires
        is_block(block, tag),
    ensures
        ({
            let all = block + after;
            without_own(all, name, all.len()) == (if tag == name {
                seq![]
            } else {
                block
            }) + without_own(after, name, after.len())
        }),
{
    let all = block + after;
    let none: Seq<Seq<char>> = seq![];
    if tag != name {
        lemma_block_is_left(none, block, after, name, tag, block.len());
        assert(none + block + after =~= all);
        assert(block.take(block.len() as int) =~= block);
        assert(without_own(all, name, 0) + block =~= block);
    } else {
        lemma_own_block_goes(block, after, name, block.len());
    }
    lemma_left_behind(block, after, name, after.len());
}

/// Nothing is left of a block of the container.
proof fn lemma_own_block_goes(
    block: Seq<Seq<char>>,
    after: Seq<Seq<char>>,
    name: Seq<char>,
    m: nat,
)
    requires
        is_block(block, name),
        m <= block.len(),
    ensures
        without_own(block + after, name, m) == Seq::<Seq<char>>::empty(),
        m > 0 ==> in_own_block(block + after, name, m - 1),
    decreases m,
{
    let all = block + after;
    if m > 0 {
        lemma_own_block_goes(block, after, name, (m - 1) as nat);
        assert(all[m - 1] == block[m - 1]);
        if m > 1 {
            assert(all[m - 2] == block[m - 2]);
        }
        lemma_own_step(all, name, m - 1);
    }
}

/// A line that begins no block, and stands in none, is left.
pub proof fn law_unmarked_line_is_left(line: Seq<char>, after: Seq<Seq<char>>, name: Seq<char>)
    requires
        begin_tag(line) is None,
    ensures
        ({
            let all = seq![line] + after;
            without_own(all, name, all.len()) == seq![line] + without_own(
                after,
                name,
                after.len(),
            )
        }),
        without_own(Seq::<Seq<char>>::empty(), name, 0) == Seq::<Seq<char>>::empty(),
{
    let front = seq![line];
    let all = front + after;
    assert(all[0] == line);
    lemma_own_step(all, name, 0);
    reveal_with_fuel(without_own, 2);
    assert(without_own(all, name, 1) =~= front);
    lemma_left_behind(front, after, name, after.len());
}

/// What deleting writes is what is left of the lines, each ended by a line feed.
pub proof fn law_stripped_text(existing: Seq<char>, name: Seq<char>)
    ensures
        stripped_text(existing, name) == unlines(
            without_own(lines(existing), name, lines(existing).len()),
        ),
{
}

/// A line pulls a file in whatever white space stands around its two words and between
/// them, and whatever the case of the keyword.
pub proof fn law_include_in_any_form(
    a: Seq<char>,
    keyword: Seq<char>,
    gap: Seq<char>,
    target: Seq<char>,
    b: Seq<char>,
)
    requires
        all_of(a, Pattern::White),
        keyword.len() == 7,
        forall|k: int| 0 <= k < 7 ==> ascii_lower(#[trigger] keyword[k]) == "include"@[k],
        gap.len() > 0,
        all_of(gap, Pattern::White),
        target.len() > 0,
        !Pattern::White.covers(target[0]),
        !Pattern::White.covers(target.last()),
        all_of(b, Pattern::White),
    ensures
        includes(a + keyword + gap + target + b, target),
{
    let white = Pattern::White;
    reveal_strlit("include");
    let line = a + keyword + gap + target + b;
    let middle = keyword + gap + target;
    assert forall|k: int| 0 <= k < 7 implies !white.covers(#[trigger] keyword[k]) by {
        assert(ascii_lower(keyword[k]) == "include"@[k]);
    }
    assert(middle[0] == keyword[0]);
    assert(middle.last() == target.last());
    law_trim(a, middle, b, white);
    assert(line =~= a + middle + b);
    let rest = gap.skip(1) + target;
    law_split(keyword, gap[0], rest, white);
    assert(keyword + seq![gap[0]] + rest =~= middle);
    let none: Seq<char> = seq![];
    let more = gap.skip(1);
    assert forall|k: int| 0 <= k < more.len() implies white.covers(#[trigger] more[k]) by {
        assert(more[k] == gap[k + 1]);
    }
    law_trim(more, target, none, white);
    assert(more + target + none =~= rest);
    assert(same_word(keyword, "include"@)) by {
        assert forall|k: int| 0 <= k < 7 implies ascii_lower(#[trigger] keyword[k])
            == ascii_lower("include"@[k]) by {
            assert(ascii_lower(keyword[k]) == "include"@[k]);
        }
    }
}

/// A line that pulls a file in starts, but for white space, with the keyword, in whatever
/// case, and ends with the file.
pub proof fn law_include_only_so(line: Seq<char>, target: Seq<char>)
    requires
        includes(line, target),
    ensures
        ({
            let bare = trimmed(line);
            &&& bare.len() >= 8
            &&& forall|k: int|
                0 <= k < 7 ==> ascii_lower(#[trigger] bare[k]) == "include"@[k]
            &&& Pattern::White.covers(bare[7])
            &&& ends(bare, target)
        }),
{
    let white = Pattern::White;
    reveal_strlit("include");
    let bare = trimmed(line);
    let at = find(bare, white) as int;
    lemma_find(bare, white);
    let keyword = bare.take(at);
    let value = bare.skip(at + 1);
    assert(same_word(keyword, "include"@));
    assert forall|k: int| 0 <= k < 7 implies ascii_lower(#[trigger] bare[k]) == "include"@[k] by {
        assert(bare[k] == keyword[k]);
        assert(ascii_lower(keyword[k]) == ascii_lower("include"@[k]));
    }
    lemma_trim_end(trim_start(line, white), white);
    lemma_trim_start(value, white);
    let first = trim_start(value, white);
    lemma_trim_end(first, white);
    if first.len() > 0 {
        assert(first.last() == value.last());
        assert(value.last() == bare.last());
        assert(trim_end(first, white) == first);
        assert(target == first);
        let n = target.len() as int;
        assert(bare.subrange(bare.len() - n, bare.len() as int) =~= target);
    } else {
        assert(target =~= seq![]);
        assert(bare.subrange(bare.len() as int, bare.len() as int) =~= target);
    }
}

/// The user's configuration counts as pulling the file in exactly if one of its lines does,
/// wherever it stands; what is made of one that does not is the new line, first, and then
/// all that was there.
pub proof fn law_include_anywhere(
    existing: Seq<char>,
    target: Seq<char>,
    before: Seq<Seq<char>>,
    line: Seq<char>,
    after: Seq<Seq<char>>,
)
    requires
        lines(existing) == before + seq![line] + after,
    ensures
        includes(line, target) ==> included(existing, target),
        (forall|k: int| 0 <= k < lines(existing).len() ==> !includes(
            #[trigger] lines(existing)[k],
            target,
        )) ==> !included(existing, target),
        with_include(existing, target) == "Include "@ + target + "\n"@ + existing,
{
    assert(lines(existing)[before.len() as int] == line);
}

/// Line by line, a block lasts from the line that begins it to the line before which a block
/// ended or on which another begins; a line is kept exactly if it is in a block of neither
/// the container nor the defaults, and the kept lines keep their order.
pub proof fn law_kept_line_by_line(ls: Seq<Seq<char>>, name: Seq<char>, i: int)
    requires
        0 <= i < ls.len(),
    ensures
        in_other_block(ls, name, i) == match begin_tag(ls[i]) {
            Some(tag) => tag != name && tag != "defaults"@,
            None => i > 0 && in_other_block(ls, name, i - 1) && end_tag(ls[i - 1]) is None,
        },
        other_blocks(ls, name, (i + 1) as nat) == if in_other_block(ls, name, i) {
            other_blocks(ls, name, i as nat).push(ls[i])
        } else {
            other_blocks(ls, name, i as nat)
        },
{
    lemma_other_step(ls, name, i);
}

/// Line by line, a block of the container lasts from the line that begins it to the line
/// before which it ended or on which another begins; a line is left exactly if it is in none,
/// and the lines that are left keep their order.
pub proof fn law_left_line_by_line(ls: Seq<Seq<char>>, name: Seq<char>, i: int)
    requires
        0 <= i < ls.len(),
    ensures
        in_own_block(ls, name, i) == match begin_tag(ls[i]) {
            Some(tag) => tag == name,
            None => i > 0 && in_own_block(ls, name, i - 1) && end_tag(ls[i - 1]) != Some(name),
        },
        without_own(ls, name, (i + 1) as nat) == if in_own_block(ls, name, i) {
            without_own(ls, name, i as nat)
        } else {
            without_own(ls, name, i as nat).push(ls[i])
        },
{
    lemma_own_step(ls, name, i);
}

} // verus!
