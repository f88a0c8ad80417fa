//! The address of the server that is asked for updates.

use crate::text;
use vstd::prelude::*;

verus! {

/// The scheme and the text of the address that a string stands for.
pub uninterp spec fn parsed_url(s: Seq<char>) -> Option<(Seq<char>, Seq<char>)>;

/// The longest Punycode that is read, in characters behind the `xn--` that a
/// label in Punycode starts with.
pub const PUNYCODE_LIMIT: usize = 2_000;

/// The host of an address: what stands between the double slash, or the last at
/// sign before the path, and the port or the path. Of an IPv6 address in
/// brackets it is the first part.
pub open spec fn host_of(address: Seq<char>) -> Seq<char> {
    match text::split_at_pattern(address, "://"@) {
        Some((_, rest)) => {
            let authority = rest.take(text::char_index(rest, '/'));
            let host = match text::split_at_last(authority, '@') {
                Some((_, host)) => host,
                None => authority,
            };
            host.take(text::char_index(host, ':'))
        },
        None => Seq::empty(),
    }
}

/// Whether a label of a host is longer than what is read as Punycode.
pub open spec fn is_overlong_label(label: Seq<char>) -> bool {
    "xn--"@.is_prefix_of(label) && label.len() > 4 + PUNYCODE_LIMIT
}

/// Whether the address's host has a label in Punycode that is too long to be
/// read.
pub open spec fn has_overlong_label(address: Seq<char>) -> bool {
    exists|i: int|
        0 <= i < text::pieces(host_of(address), '.').len() && is_overlong_label(
            #[trigger] text::pieces(host_of(address), '.')[i],
        )
}

/// Whether `address` is written as an address of the web: the scheme and a
/// double slash, then something other than a slash, and no whitespace anywhere.
pub open spec fn is_web_address(scheme: Seq<char>, address: Seq<char>) -> bool {
    let start = scheme + "://"@;
    &&& start.is_prefix_of(address)
    &&& start.len() < address.len()
    &&& address[start.len() as int] != '/'
    &&& forall|i: int| 0 <= i < address.len() ==> !text::is_whitespace(#[trigger] address[i])
}

/// Whether an address is read back without the slashes at its end: it has the
/// same scheme, and its text differs in slashes at its end alone.
pub open spec fn reads_back(scheme: Seq<char>, address: Seq<char>) -> bool {
    match parsed_url(text::without_trailing(address, '/')) {
        Some((again, printed)) => again == scheme && text::without_trailing(printed, '/')
            == text::without_trailing(address, '/'),
        None => false,
    }
}

/// Calls `url::Url::parse`. Its result, as the scheme of the address and the
/// text that the address prints as, has a name. Claimed beside that: the text
/// starts with the scheme and a colon. For `http` and `https`, two more claims
/// are made. A double slash follows, then user information or a host, neither of
/// which is empty or starts with a slash, and the text is ASCII without
/// whitespace, since the parser encodes all else. And what it prints is what it
/// reads: slashes at the end are the end of a path, a query or a fragment, so
/// that the text without them is read as an address with the same scheme, user
/// information, host, port and the rest of the path, query and fragment. The last
/// is not claimed of a host with a label of more than two thousand characters of
/// Punycode, which a host in Unicode can come to: such a label is not read again.
/// Nothing is claimed of which strings are addresses.
#[verifier::external_body]
fn parse_url(s: &str) -> (r: Option<(String, String)>)
    ensures
        pair_view(r) == parsed_url(s@),
        r matches Some(url) ==> (url.0@ + seq![':']).is_prefix_of(url.1@),
        r matches Some(url) ==> is_web_scheme(url.0@) ==> is_web_address(url.0@, url.1@),
        r matches Some(url) ==> is_web_scheme(url.0@) && !has_overlong_label(
            text::without_trailing(url.1@, '/'),
        ) ==> reads_back(url.0@, url.1@),
{
    match url::Url::parse(s) {
        Ok(url) => Some((url.scheme().to_owned(), url.to_string())),
        Err(_) => None,
    }
}

/// The characters of a pair of texts.
pub open spec fn pair_view(pair: Option<(String, String)>) -> Option<(Seq<char>, Seq<char>)> {
    match pair {
        Some((a, b)) => Some((a@, b@)),
        None => None,
    }
}

/// Whether updates can be asked for under a scheme.
pub open spec fn is_web_scheme(scheme: Seq<char>) -> bool {
    scheme == "http"@ || scheme == "https"@
}

/// The address that is used, of the scheme and the text of one: it has a web
/// scheme and no slash at its end.
pub open spec fn accepted(url: Option<(Seq<char>, Seq<char>)>) -> Option<Seq<char>> {
    match url {
        Some((scheme, address)) => if is_web_scheme(scheme) {
            Some(text::without_trailing(address, '/'))
        } else {
            None
        },
        None => None,
    }
}

/// The address that is used, of what the settings hold.
pub open spec fn normalized(raw: Option<Seq<char>>) -> Option<Seq<char>> {
    match raw {
        Some(s) => if text::trimmed(s).len() == 0 {
            None
        } else {
            accepted(parsed_url(text::trimmed(s)))
        },
        None => None,
    }
}

/// The address that is used, of the scheme and the text of one.
pub fn accept_update_server(url: Option<(String, String)>) -> (r: Option<String>)
    ensures
        text::option_view(r) == accepted(pair_view(url)),
{
    match url {
        Some((scheme, address)) => {
            let scheme = text::to_chars(scheme.as_str());
            if !text::is_text(scheme.as_slice(), "http") && !text::is_text(
                scheme.as_slice(),
                "https",
            ) {
                return None;
            }
            let address = text::to_chars(address.as_str());
            Some(text::from_chars(text::trim_end_char(address.as_slice(), '/')))
        },
        None => None,
    }
}

/// Whether an address can be used to ask for updates: it starts with the scheme
/// of the web and a double slash, and a path can be put behind it, since no slash
/// stands at its end.
pub open spec fn is_usable(address: Seq<char>) -> bool {
    &&& "http://"@.is_prefix_of(address) || "https://"@.is_prefix_of(address)
    &&& address.last() != '/'
}

/// The address that is used, of what the settings hold. There is none for
/// nothing, for whitespace, for what is no address and for an address that is
/// not one of the web. An address that came out of this comes out of it again
/// as it is, unless its host has a label in Punycode that is too long to be read.
pub fn normalize_update_server_url(raw: Option<&str>) -> (r: Option<String>)
    ensures
        text::option_view(r) == normalized(text::option_view(raw)),
        r matches Some(address) ==> is_usable(address@),
        r matches Some(address) ==> !has_overlong_label(address@) ==> normalized(Some(address@))
            == Some(address@),
{
    match raw {
        Some(s) => {
            let chars = text::to_chars(s);
            let trimmed = text::trim(chars.as_slice());
            if trimmed.len() == 0 {
                return None;
            }
            let trimmed = text::from_chars(trimmed);
            let url = parse_url(trimmed.as_str());
            proof {
                if let Some((scheme, address)) = pair_view(url) {
                    if is_web_scheme(scheme) {
                        lemma_accepted_address(scheme, address);
                    }
                }
            }
            accept_update_server(url)
        },
        None => None,
    }
}

/// What is left of an address without the slashes at its end can be used, and is
/// not changed by being taken out of the settings again.
proof fn lemma_accepted_address(scheme: Seq<char>, address: Seq<char>)
    requires
        is_web_scheme(scheme),
        is_web_address(scheme, address),
    ensures
        is_usable(text::without_trailing(address, '/')),
        reads_back(scheme, address) ==> normalized(Some(text::without_trailing(address, '/')))
            == Some(text::without_trailing(address, '/')),
{
    reveal_strlit("://");
    reveal_strlit("http");
    reveal_strlit("https");
    reveal_strlit("http://");
    reveal_strlit("https://");
    let used = text::without_trailing(address, '/');
    let start = scheme + "://"@;
    let n: int = start.len() as int;
    let longer = address.take(n + 1);
    no_slash_is_left(address);
    stripping_keeps_the_start(address, longer);
    lemma_stripping_leaves_a_start(address, '/');
    assert(longer.is_prefix_of(used));
    assert(start =~= longer.take(n));
    assert(start =~= used.take(n)) by {
        assert(used.take(n + 1) == longer);
        assert(used.take(n) =~= longer.take(n));
    }
    assert("http://"@ =~= "http"@ + "://"@);
    assert("https://"@ =~= "https"@ + "://"@);
    assert(used[0] == address[0]);
    assert(used.last() == address[used.len() - 1]);
    assert(text::trimmed(used) == used);
}

/// What is left without the `c`s at the end is a start of the text.
proof fn lemma_stripping_leaves_a_start(s: Seq<char>, c: char)
    ensures
        text::without_trailing(s, c).is_prefix_of(s),
    decreases s.len(),
{
    if s.len() > 0 && s.last() == c {
        lemma_stripping_leaves_a_start(s.drop_last(), c);
    }
}

/// No slash stands at the end of what the slashes at the end were taken from.
pub proof fn no_slash_is_left(s: Seq<char>)
    ensures
        text::without_trailing(s, '/').len() > 0 ==> text::without_trailing(s, '/').last() != '/',
    decreases s.len(),
{
    if s.len() > 0 && s.last() == '/' {
        no_slash_is_left(s.drop_last());
    }
}

/// Taking the slashes at the end leaves a start that ends in another character.
pub proof fn stripping_keeps_the_start(s: Seq<char>, start: Seq<char>)
    requires
        start.is_prefix_of(s),
        start.len() > 0,
        start.last() != '/',
    ensures
        start.is_prefix_of(text::without_trailing(s, '/')),
    decreases s.len(),
{
    if s.len() > 0 && s.last() == '/' {
        if s.len() == start.len() {
            assert(s =~= start);
        }
        assert(start.is_prefix_of(s.drop_last()));
        stripping_keeps_the_start(s.drop_last(), start);
    }
}

/// Whitespace around what the settings hold makes no difference.
pub proof fn whitespace_makes_no_difference(s: Seq<char>)
    ensures
        normalized(Some(text::trimmed(s))) == normalized(Some(s)),
{
    text::trimming_twice_changes_nothing(s);
}

/// An address of the web is used without the slashes at its end, however many
/// there are, and with all else as it is; an address of another kind is not used.
pub proof fn web_addresses_are_used(scheme: Seq<char>, address: Seq<char>, slashes: nat)
    requires
        address.len() > 0,
        address.last() != '/',
    ensures
        accepted(Some((scheme, address + text::repeated('/', slashes)))) == (if scheme == "http"@
            || scheme == "https"@ {
            Some(address)
        } else {
            None
        }),
        accepted(None) is None,
{
    text::trailing_characters_are_dropped(address, '/', slashes);
}

/// What the settings hold is read without the whitespace around it; nothing and
/// whitespace alone stand for no address.
pub proof fn settings_are_read_without_whitespace(
    before: Seq<char>,
    s: Seq<char>,
    after: Seq<char>,
)
    requires
        text::all_whitespace(before),
        text::all_whitespace(after),
        text::has_firm_ends(s),
    ensures
        normalized(Some(before + s + after)) == (if s.len() > 0 {
            accepted(parsed_url(s))
        } else {
            None
        }),
        normalized(None) is None,
{
    text::whitespace_around_is_trimmed(before, s, after);
}

} // verus!
