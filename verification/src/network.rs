//! The local DNS domain of the containers.

use vstd::prelude::*;
use vstd::string::*;

use crate::names::{expand, expanded};
use crate::process::{container, container_command, CommandLine, Outcome};
use crate::services::{warning, warning_text};
use crate::text::{
    all_of, any_of, ends, has_text, head, law_pieces, law_split, law_trim, lemma_five_pieces, lines, same_text, split_at_first, split_lines, split_once, split_words, starts, starts_with,
    texts, trim, trim_both, trim_white, trimmed, words, Pattern,
};

verus! {

/// The domain that the runtime uses if nothing else is configured.
pub const DEFAULT_DOMAIN: &'static str = "container";

/// Does the line begin a section of the runtime's properties?
pub open spec fn is_header(line: Seq<char>) -> bool {
    starts(trimmed(line), "["@)
}

/// Is line `i` in the section on DNS? The last line before it that begins a section
/// begins that one.
pub open spec fn in_dns(ls: Seq<Seq<char>>, i: int) -> bool
    decreases i,
{
    i > 0 && if is_header(ls[i - 1]) {
        trimmed(ls[i - 1]) == "[dns]"@
    } else {
        in_dns(ls, i - 1)
    }
}

/// The value that a line gives to a key: bare, or between double quotes.
pub open spec fn value_of(line: Seq<char>, key: Seq<char>) -> Option<Seq<char>> {
    match split_once(trimmed(line), Pattern::Is('=')) {
        Some((k, v)) if trimmed(k) == key => Some(trim(trimmed(v), Pattern::Is('"'))),
        _ => None,
    }
}

/// The domain that line `i` configures, if it configures one.
pub open spec fn domain_at(ls: Seq<Seq<char>>, i: int) -> Option<Seq<char>> {
    if !is_header(ls[i]) && in_dns(ls, i) {
        match value_of(ls[i], "domain"@) {
            Some(value) if value.len() > 0 => Some(value),
            _ => None,
        }
    } else {
        None
    }
}

/// The first domain that is configured from line `i` on, or the runtime's own default.
pub open spec fn domain_from(ls: Seq<Seq<char>>, i: int) -> Seq<char>
    decreases ls.len() - i,
{
    if 0 <= i < ls.len() {
        match domain_at(ls, i) {
            Some(domain) => domain,
            None => domain_from(ls, i + 1),
        }
    } else {
        DEFAULT_DOMAIN@
    }
}

/// The command that lists the runtime's properties.
pub fn properties_command() -> (r: CommandLine)
    ensures
        r@ == container(seq!["system"@, "property"@, "ls"@]),
{
    let args = vec!["system".to_owned(), "property".to_owned(), "ls".to_owned()];
    assert(texts(args@) =~= seq!["system"@, "property"@, "ls"@]);
    container_command(args)
}

/// The value that a line gives to a key.
fn line_value(line: &str, key: &str) -> (r: Option<String>)
    ensures
        crate::text::opt_text(r) == value_of(line@, key@),
{
    if let Some((k, v)) = split_at_first(trim_white(line).as_str(), Pattern::Is('=')) {
        if same_text(trim_white(k.as_str()).as_str(), key) {
            return Some(trim_both(trim_white(v.as_str()).as_str(), Pattern::Is('"')));
        }
    }
    None
}

/// The domain that the runtime appends to container names, by how the command that lists
/// its properties ended; the usual one where they do not say.
pub fn dns_domain(properties: &Outcome) -> (r: String)
    ensures
        r@ == domain_from(lines(properties.output()), 0),
{
    domain_in(properties.written().as_str())
}

/// The domain that the runtime appends to container names, out of its properties.
pub fn domain_in(props: &str) -> (r: String)
    ensures
        r@ == domain_from(lines(props@), 0),
{
    let all = split_lines(props);
    let ghost ls = lines(props@);
    let mut dns = false;
    let mut i: usize = 0;
    while i < all.len()
        invariant
            texts(all@) == ls,
            ls == lines(props@),
            i <= all@.len(),
            dns == in_dns(ls, i as int),
            domain_from(ls, i as int) == domain_from(ls, 0),
        decreases all@.len() - i,
    {
        let line = trim_white(all[i].as_str());
        assert(ls[i as int] == all@[i as int]@);
        if starts_with(line.as_str(), "[") {
            dns = same_text(line.as_str(), "[dns]");
        } else if dns {
            if let Some(value) = line_value(all[i].as_str(), "domain") {
                if !value.as_str().is_empty() {
                    return value;
                }
            }
        }
        i += 1;
    }
    DEFAULT_DOMAIN.to_owned()
}

/// Is the domain among those that the runtime serves? Its list has one on each line, as
/// the first word.
pub open spec fn serves(listing: Seq<char>, domain: Seq<char>) -> bool {
    exists|k: int|
        0 <= k < lines(listing).len() && first_word_is(#[trigger] lines(listing)[k], domain)
}

/// Is the word the first of the line?
pub open spec fn first_word_is(line: Seq<char>, word: Seq<char>) -> bool {
    words(line).len() > 0 && words(line)[0] == word
}

/// The command that lists the domains that the runtime serves.
pub fn domains_command() -> (r: CommandLine)
    ensures
        r@ == container(seq!["system"@, "dns"@, "list"@]),
{
    let args = vec!["system".to_owned(), "dns".to_owned(), "list".to_owned()];
    assert(texts(args@) =~= seq!["system"@, "dns"@, "list"@]);
    container_command(args)
}

/// Is the domain among those that the runtime serves?
pub fn serves_domain(listing: &str, domain: &str) -> (r: bool)
    ensures
        r == serves(listing@, domain@),
{
    let all = split_lines(listing);
    let ghost ls = lines(listing@);
    let mut i: usize = 0;
    while i < all.len()
        invariant
            texts(all@) == ls,
            ls == lines(listing@),
            i <= all@.len(),
            forall|k: int| 0 <= k < i ==> !first_word_is(#[trigger] ls[k], domain@),
        decreases all@.len() - i,
    {
        let w = split_words(all[i].as_str());
        assert(ls[i as int] == all@[i as int]@);
        if w.len() > 0 {
            assert(texts(w@)[0] == w@[0]@);
            if same_text(w[0].as_str(), domain) {
                assert(first_word_is(ls[i as int], domain@));
                return true;
            }
        }
        i += 1;
    }
    false
}

/// A file in the directory of the system's resolvers.
pub struct ResolverFile {
    /// The file's name.
    pub name: String,
    /// What the file says, if it could be read.
    pub body: Option<String>,
}

/// Does the line apply to the domain? A line `domain` or `search` does that names it.
pub open spec fn line_names(line: Seq<char>, domain: Seq<char>) -> bool {
    let w = words(line);
    &&& w.len() > 0
    &&& w[0] == "domain"@ || w[0] == "search"@
    &&& exists|k: int| 1 <= k < w.len() && #[trigger] w[k] == domain
}

/// Does any line of the text apply to the domain?
pub open spec fn body_names(body: Seq<char>, domain: Seq<char>) -> bool {
    exists|k: int| 0 <= k < lines(body).len() && line_names(#[trigger] lines(body)[k], domain)
}

/// Does the file apply to the domain, by its name or by one of its lines?
pub open spec fn file_applies(file: ResolverFile, domain: Seq<char>) -> bool {
    ||| file.name@ == domain
    ||| file.body matches Some(body) && body_names(body@, domain)
}

/// Does the line apply to the domain?
fn line_names_domain(line: &str, domain: &str) -> (r: bool)
    ensures
        r == line_names(line@, domain@),
{
    let w = split_words(line);
    let ghost all = words(line@);
    if w.len() == 0 {
        return false;
    }
    assert(all[0] == w@[0]@);
    if !same_text(w[0].as_str(), "domain") && !same_text(w[0].as_str(), "search") {
        return false;
    }
    let mut i: usize = 1;
    while i < w.len()
        invariant
            texts(w@) == all,
            all == words(line@),
            1 <= i <= w@.len(),
            all[0] == "domain"@ || all[0] == "search"@,
            forall|k: int| 1 <= k < i ==> #[trigger] all[k] != domain@,
        decreases w@.len() - i,
    {
        assert(all[i as int] == w@[i as int]@);
        if same_text(w[i].as_str(), domain) {
            return true;
        }
        i += 1;
    }
    false
}

/// Does any line of the text apply to the domain?
fn body_names_domain(body: &str, domain: &str) -> (r: bool)
    ensures
        r == body_names(body@, domain@),
{
    let all = split_lines(body);
    let ghost ls = lines(body@);
    let mut i: usize = 0;
    while i < all.len()
        invariant
            texts(all@) == ls,
            ls == lines(body@),
            i <= all@.len(),
            forall|k: int| 0 <= k < i ==> !line_names(#[trigger] ls[k], domain@),
        decreases all@.len() - i,
    {
        assert(ls[i as int] == all@[i as int]@);
        if line_names_domain(all[i].as_str(), domain) {
            assert(line_names(ls[i as int], domain@));
            return true;
        }
        i += 1;
    }
    false
}

/// Does the file apply to the domain?
fn file_applies_to(file: &ResolverFile, domain: &str) -> (r: bool)
    ensures
        r == file_applies(*file, domain@),
{
    same_text(file.name.as_str(), domain) || match &file.body {
        Some(body) => body_names_domain(body.as_str(), domain),
        None => false,
    }
}

/// Does the system route the domain to a resolver of its own, by any of its resolver
/// files?
pub fn os_resolver_has(domain: &str, files: &Vec<ResolverFile>) -> (r: bool)
    ensures
        r == exists|k: int|
            0 <= k < files@.len() && file_applies(#[trigger] files@[k], domain@),
{
    let mut i: usize = 0;
    while i < files.len()
        invariant
            i <= files@.len(),
            forall|k: int| 0 <= k < i ==> !file_applies(#[trigger] files@[k], domain@),
        decreases files@.len() - i,
    {
        if file_applies_to(&files[i], domain) {
            return true;
        }
        i += 1;
    }
    false
}

/// What is said where the runtime does not serve the domain.
pub open spec fn unserved_message(domain: Seq<char>) -> Seq<char> {
    "`container` is not serving the local DNS domain `"@ + domain + expand(
        "`, which @ needs to reach VMs by name.\n  fix (needs admin):  sudo container system dns create "@,
    ) + domain + "\n  then verify:        container system dns list"@
}

/// What is said where the system does not resolve the domain.
pub open spec fn unresolved_message(domain: Seq<char>) -> Seq<char> {
    "macOS is not set up to resolve `."@ + domain
        + "` names: no matching entry in /etc/resolver.\n  `container` writes that file when the domain is created, so re-create it (needs admin):\n    sudo container system dns delete "@
        + domain + "\n    sudo container system dns create "@ + domain
}

/// Judges whether containers can be reached by name: the runtime must serve the domain,
/// by how the command that lists its domains ended, and the system must route it there,
/// by its resolver files.
pub fn check_dns(domain: &str, listing: &Outcome, files: &Vec<ResolverFile>) -> (r: Result<
    (),
    String,
>)
    ensures
        ({
            let served = serves(listing.output(), domain@);
            let routed = exists|k: int|
                0 <= k < files@.len() && file_applies(#[trigger] files@[k], domain@);
            &&& r is Ok <==> served && routed
            &&& r matches Err(message) ==> message@ == if served {
                unresolved_message(domain@)
            } else {
                unserved_message(domain@)
            }
        }),
{
    if !serves_domain(listing.written().as_str(), domain) {
        return Err(
            "`container` is not serving the local DNS domain `".to_owned().concat(domain).concat(
                expanded(
                    "`, which @ needs to reach VMs by name.\n  fix (needs admin):  sudo container system dns create ",
                ).as_str(),
            ).concat(domain).concat("\n  then verify:        container system dns list"),
        );
    }
    if !os_resolver_has(domain, files) {
        return Err(
            "macOS is not set up to resolve `.".to_owned().concat(domain).concat(
                "` names: no matching entry in /etc/resolver.\n  `container` writes that file when the domain is created, so re-create it (needs admin):\n    sudo container system dns delete ",
            ).concat(domain).concat("\n    sudo container system dns create ").concat(domain),
        );
    }
    Ok(())
}

/// The warning that containers cannot be reached by name, if they cannot. Connections are
/// made by address: a machine starts all the same.
pub fn preflight(domain: &str, listing: &Outcome, files: &Vec<ResolverFile>) -> (r: Option<String>)
    ensures
        ({
            let served = serves(listing.output(), domain@);
            let routed = exists|k: int|
                0 <= k < files@.len() && file_applies(#[trigger] files@[k], domain@);
            &&& r is None <==> served && routed
            &&& r matches Some(text) ==> text@ == warning_text(
                if served {
                    unresolved_message(domain@)
                } else {
                    unserved_message(domain@)
                },
            )
        }),
{
    match check_dns(domain, listing, files) {
        Ok(_) => None,
        Err(message) => Some(warning(message.as_str())),
    }
}

/// What a line says of a key, with white space around its parts and the value bare or
/// between double quotes.
pub proof fn law_value(
    a: Seq<char>,
    key: Seq<char>,
    b: Seq<char>,
    c: Seq<char>,
    open: Seq<char>,
    value: Seq<char>,
    close: Seq<char>,
    d: Seq<char>,
)
    requires
        all_of(a, Pattern::White),
        all_of(b, Pattern::White),
        all_of(c, Pattern::White),
        all_of(d, Pattern::White),
        all_of(open, Pattern::Is('"')),
        all_of(close, Pattern::Is('"')),
        key.len() > 0,
        !any_of(key, Pattern::Is('=')),
        !Pattern::White.covers(key[0]),
        !Pattern::White.covers(key.last()),
        value.len() > 0,
        !Pattern::White.covers(value[0]) && value[0] != '"',
        !Pattern::White.covers(value.last()) && value.last() != '"',
    ensures
        value_of(a + key + b + seq!['='] + c + open + value + close + d, key) == Some(value),
{
    let white = Pattern::White;
    let none: Seq<char> = seq![];
    let line = a + key + b + seq!['='] + c + open + value + close + d;
    let quoted = open + value + close;
    let right = c + quoted;
    let left = key + b;
    let bare = left + seq!['='] + right;
    assert(!white.covers('"'));
    assert(quoted.len() > 0);
    if open.len() > 0 {
        assert(quoted[0] == open[0]);
        assert(Pattern::Is('"').covers(open[0]));
    } else {
        assert(quoted[0] == value[0]);
    }
    if close.len() > 0 {
        assert(quoted.last() == close[close.len() - 1]);
        assert(Pattern::Is('"').covers(close[close.len() - 1]));
    } else {
        assert(quoted.last() == value.last());
    }
    assert(bare[0] == key[0]);
    assert(bare.last() == quoted.last());
    law_trim(a, bare, d, white);
    assert(line =~= a + bare + d);
    assert(!any_of(left, Pattern::Is('='))) by {
        assert forall|k: int| 0 <= k < left.len() implies !Pattern::Is('=').covers(
            #[trigger] left[k],
        ) by {
            if k < key.len() {
                assert(!Pattern::Is('=').covers(key[k]));
                assert(left[k] == key[k]);
            } else {
                assert(left[k] == b[k - key.len()]);
                assert(white.covers(b[k - key.len()]));
            }
        }
    }
    law_split(left, '=', right, Pattern::Is('='));
    law_trim(none, key, b, white);
    assert(none + key + b =~= left);
    law_trim(c, quoted, none, white);
    assert(c + quoted + none =~= right);
    law_trim(open, value, close, Pattern::Is('"'));
}

/// The domain is the first that the section on DNS gives, wherever the section stands among
/// the others and the line in the section.
pub proof fn law_domain_is_read(
    before: Seq<Seq<char>>,
    header: Seq<char>,
    between: Seq<Seq<char>>,
    line: Seq<char>,
    after: Seq<Seq<char>>,
    domain: Seq<char>,
)
    requires
        forall|k: int| 0 <= k < before.len() ==> trimmed(#[trigger] before[k]) != "[dns]"@,
        trimmed(header) == "[dns]"@,
        forall|k: int|
            0 <= k < between.len() ==> !starts(trimmed(#[trigger] between[k]), "["@) && (value_of(
                between[k],
                "domain"@,
            ) matches Some(value) ==> value.len() == 0),
        !starts(trimmed(line), "["@),
        value_of(line, "domain"@) == Some(domain),
        domain.len() > 0,
    ensures
        domain_from(before + seq![header] + between + seq![line] + after, 0) == domain,
{
    let ls = before + seq![header] + between + seq![line] + after;
    let h = before.len() as int;
    let n = h + 1 + between.len();
    reveal_strlit("[dns]");
    reveal_strlit("[");
    assert("[dns]"@.subrange(0, 1) =~= "["@);
    assert(starts("[dns]"@, "["@));
    assert forall|k: int| 0 <= k < h implies #[trigger] ls[k] == before[k] by {}
    assert(ls[h] == header);
    lemma_not_in_dns(ls, h);
    assert forall|i: int| 0 <= i < n implies domain_at(ls, i) is None by {
        if i <= h {
            lemma_not_in_dns(ls, i);
        } else {
            assert(ls[i] == between[i - h - 1]);
        }
    }
    assert(ls[n] == line);
    assert forall|i: int| h < i < n implies !is_header(#[trigger] ls[i]) by {
        assert(ls[i] == between[i - h - 1]);
    }
    lemma_in_dns(ls, h, n);
    lemma_domain_from(ls, 0, n);
}

/// Before the section on DNS no line is in it.
proof fn lemma_not_in_dns(ls: Seq<Seq<char>>, i: int)
    requires
        0 <= i <= ls.len(),
        forall|k: int| 0 <= k < i ==> trimmed(#[trigger] ls[k]) != "[dns]"@,
    ensures
        !in_dns(ls, i),
    decreases i,
{
    if i > 0 {
        assert(trimmed(ls[i - 1]) != "[dns]"@);
        lemma_not_in_dns(ls, i - 1);
    }
}

/// Behind the line that begins the section on DNS the lines are in it, up to the next
/// section.
proof fn lemma_in_dns(ls: Seq<Seq<char>>, h: int, n: int)
    requires
        0 <= h < n <= ls.len(),
        is_header(ls[h]),
        trimmed(ls[h]) == "[dns]"@,
        forall|i: int| h < i < n ==> !is_header(#[trigger] ls[i]),
    ensures
        in_dns(ls, n),
    decreases n,
{
    if n > h + 1 {
        assert(!is_header(ls[n - 1]));
        lemma_in_dns(ls, h, n - 1);
    }
}

/// Lines that configure no domain are passed over.
proof fn lemma_domain_from(ls: Seq<Seq<char>>, i: int, n: int)
    requires
        0 <= i <= n <= ls.len(),
        forall|k: int| i <= k < n ==> (#[trigger] domain_at(ls, k)) is None,
    ensures
        domain_from(ls, i) == domain_from(ls, n),
    decreases n - i,
{
    if i < n {
        assert(domain_at(ls, i) is None);
        lemma_domain_from(ls, i + 1, n);
    }
}

/// A line belongs to the section that the last line before it that begins one begins: the
/// section on DNS is called `[dns]`, and before the first section a line is in none.
pub proof fn law_sections(ls: Seq<Seq<char>>, h: int, n: int)
    requires
        -1 <= h < n <= ls.len(),
        0 <= n,
        h >= 0 ==> starts(trimmed(ls[h]), "["@),
        forall|i: int| h < i < n ==> !starts(trimmed(#[trigger] ls[i]), "["@),
    ensures
        in_dns(ls, n) <==> h >= 0 && trimmed(ls[h]) == "[dns]"@,
    decreases n,
{
    if n > h + 1 {
        assert(!is_header(ls[n - 1]));
        law_sections(ls, h, n - 1);
    }
}

/// A line configures a domain exactly if it is in the section on DNS, begins none, and gives
/// the key `domain` a value that is not empty: that value.
pub proof fn law_domain_of_a_line(ls: Seq<Seq<char>>, i: int, value: Seq<char>)
    ensures
        domain_at(ls, i) == Some(value) <==> in_dns(ls, i) && !starts(trimmed(ls[i]), "["@)
            && value_of(ls[i], "domain"@) == Some(value) && value.len() > 0,
{
}

/// The domain is that of the first line that configures one; where none does it is the
/// runtime's own.
pub proof fn law_first_domain(ls: Seq<Seq<char>>, n: int)
    requires
        0 <= n <= ls.len(),
        forall|i: int| 0 <= i < n ==> (#[trigger] domain_at(ls, i)) is None,
        n < ls.len() ==> domain_at(ls, n) is Some,
    ensures
        n < ls.len() ==> Some(domain_from(ls, 0)) == domain_at(ls, n),
        n == ls.len() ==> domain_from(ls, 0) == "container"@,
{
    lemma_domain_from(ls, 0, n);
}

/// A line gives a key no value if it has no `=`, or another key before it.
pub proof fn law_no_value(line: Seq<char>, key: Seq<char>)
    ensures
        !any_of(trimmed(line), Pattern::Is('=')) ==> value_of(line, key) is None,
        value_of(line, key) is Some ==> trimmed(head(trimmed(line), Pattern::Is('='))) == key,
{
    let bare = trimmed(line);
    if !any_of(bare, Pattern::Is('=')) {
        law_split(bare, '=', seq![], Pattern::Is('='));
    }
}

/// The runtime serves a domain exactly if a line of its list has it as its first word.
pub proof fn law_serves(
    listing: Seq<char>,
    domain: Seq<char>,
    before: Seq<Seq<char>>,
    line: Seq<char>,
    after: Seq<Seq<char>>,
)
    requires
        lines(listing) == before + seq![line] + after,
    ensures
        words(line).len() > 0 && words(line)[0] == domain ==> serves(listing, domain),
        (forall|k: int|
            0 <= k < lines(listing).len() ==> words(#[trigger] lines(listing)[k]).len() == 0
                || words(lines(listing)[k])[0] != domain) ==> !serves(listing, domain),
        lines(listing).len() == 0 ==> !serves(listing, domain),
{
    let ls = lines(listing);
    let at = before.len() as int;
    assert(ls[at] == line);
    if words(line).len() > 0 && words(line)[0] == domain {
        assert(first_word_is(ls[at], domain));
    }
}

/// A resolver file applies to a domain exactly if it is named after it, or has a line
/// `domain` or `search` that names it behind that word.
pub proof fn law_resolver_files(
    file: ResolverFile,
    domain: Seq<char>,
    line: Seq<char>,
    k: int,
)
    ensures
        file.name@ == domain ==> file_applies(file, domain),
        file.name@ != domain && file.body is None ==> !file_applies(file, domain),
        file.body matches Some(body) ==> {
            &&& 0 <= k < lines(body@).len() && line_names(lines(body@)[k], domain)
                ==> file_applies(file, domain)
            &&& file.name@ != domain && (forall|j: int|
                0 <= j < lines(body@).len() ==> !line_names(#[trigger] lines(body@)[j], domain))
                ==> !file_applies(file, domain)
        },
        words(line).len() == 0 || words(line)[0] != "domain"@ && words(line)[0] != "search"@
            ==> !line_names(line, domain),
        words(line).len() > 0 && (words(line)[0] == "domain"@ || words(line)[0] == "search"@)
            ==> (line_names(line, domain) <==> words(line).skip(1).contains(domain)),
{
    if let Some(body) = file.body {
        if 0 <= k < lines(body@).len() && line_names(lines(body@)[k], domain) {
            assert(body_names(body@, domain));
        }
    }
    let w = words(line);
    if w.len() > 0 {
        let more = w.skip(1);
        if more.contains(domain) {
            let j = choose|j: int| 0 <= j < more.len() && #[trigger] more[j] == domain;
            assert(w[j + 1] == domain);
        }
        if exists|j: int| 1 <= j < w.len() && #[trigger] w[j] == domain {
            let j = choose|j: int| 1 <= j < w.len() && #[trigger] w[j] == domain;
            assert(more[j - 1] == domain);
        }
    }
}

/// What is said where containers cannot be reached by name names the domain, and the command
/// that mends it.
pub proof fn law_dns_messages(domain: Seq<char>)
    ensures
        has_text(unserved_message(domain), domain),
        ends(unresolved_message(domain), "\n    sudo container system dns create "@ + domain),
{
    let fix = expand(
        "`, which @ needs to reach VMs by name.\n  fix (needs admin):  sudo container system dns create "@,
    );
    lemma_five_pieces(
        "`container` is not serving the local DNS domain `"@,
        domain,
        fix,
        domain,
        "\n  then verify:        container system dns list"@,
    );
    let start = "macOS is not set up to resolve `."@ + domain
        + "` names: no matching entry in /etc/resolver.\n  `container` writes that file when the domain is created, so re-create it (needs admin):\n    sudo container system dns delete "@
        + domain;
    let end = "\n    sudo container system dns create "@ + domain;
    law_pieces(start, end, seq![]);
    assert(unresolved_message(domain) =~= start + end);
}

} // verus!
