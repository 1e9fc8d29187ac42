//! Space invite links: `anytype://` links with the invite in the query, and
//! web links with the invite identifier in the path and the key in the
//! fragment.
use vstd::prelude::*;
use crate::text::same_text;

verus! {

#[verifier::external_type_specification]
#[verifier::external_body]
pub struct ExUrlParseError(url::ParseError);

/// The parts of a parsed address that invites are read from.
#[derive(Clone, PartialEq, Debug)]
pub struct UrlParts {
    pub scheme: String,
    pub path: String,
    pub fragment: Option<String>,
    pub query_pairs: Vec<(String, String)>,
}

/// The texts of the parts of a parsed address.
pub struct UrlPartsView {
    pub scheme: Seq<char>,
    pub path: Seq<char>,
    pub fragment: Option<Seq<char>>,
    pub query_pairs: Seq<(Seq<char>, Seq<char>)>,
}

/// The texts of optional text.
pub open spec fn opt_text(s: Option<String>) -> Option<Seq<char>> {
    match s {
        Some(x) => Some(x@),
        None => None,
    }
}

impl View for UrlParts {
    type V = UrlPartsView;

    open spec fn view(&self) -> UrlPartsView {
        UrlPartsView {
            scheme: self.scheme@,
            path: self.path@,
            fragment: opt_text(self.fragment),
            query_pairs: self.query_pairs@.map_values(|p: (String, String)| (p.0@, p.1@)),
        }
    }
}

/// What `url::Url::parse` makes of a text: the address's scheme, path,
/// fragment and decoded query pairs, or the parse error.
pub uninterp spec fn url_parse_outcome(input: Seq<char>) -> Result<UrlPartsView, url::ParseError>;

/// Parses an absolute address with `url::Url::parse` and reads its scheme,
/// path, fragment and decoded query pairs (`scheme`, `path`, `fragment`,
/// `query_pairs`). The contract says only that the outcome is the one named
/// by `url_parse_outcome` for the input; what the parser accepts and how it
/// normalises an address is left to the `url` crate.
#[verifier::external_body]
fn parse_url(input: &str) -> (r: Result<UrlParts, url::ParseError>)
    ensures
        match r {
            Ok(p) => url_parse_outcome(input@) == Ok::<UrlPartsView, url::ParseError>(p@),
            Err(e) => url_parse_outcome(input@) == Err::<UrlPartsView, url::ParseError>(e),
        },
{
    let u = url::Url::parse(input)?;
    Ok(UrlParts {
        scheme: u.scheme().to_string(),
        path: u.path().to_string(),
        fragment: u.fragment().map(|f| f.to_string()),
        query_pairs: u.query_pairs().map(|(k, v)| (k.into_owned(), v.into_owned())).collect(),
    })
}

/// An invite to a space.
#[derive(Clone, PartialEq, Debug)]
pub struct ParsedInvite {
    pub cid: String,
    pub key: String,
    pub space_id: String,
}

/// Why an invite link was refused.
#[derive(PartialEq, Debug)]
pub enum InviteError {
    /// The link is empty.
    Empty,
    /// The link is not an address.
    InvalidUrl(url::ParseError),
    /// The address is neither `anytype:` nor a web address.
    InvalidScheme,
}

/// The texts of an invite.
pub struct InviteView {
    pub cid: Seq<char>,
    pub key: Seq<char>,
    pub space_id: Seq<char>,
}

/// The value of the last query pair named `key`, or the empty text.
pub open spec fn last_value(pairs: Seq<(Seq<char>, Seq<char>)>, key: Seq<char>) -> Seq<char>
    decreases pairs.len(),
{
    if pairs.len() == 0 {
        Seq::empty()
    } else if pairs.last().0 == key {
        pairs.last().1
    } else {
        last_value(pairs.drop_last(), key)
    }
}

/// A text without its leading slashes.
pub open spec fn trim_leading_slashes(s: Seq<char>) -> Seq<char>
    decreases s.len(),
{
    if s.len() > 0 && s[0] == '/' {
        trim_leading_slashes(s.drop_first())
    } else {
        s
    }
}

/// Law: the value read for `key` is the value of the last query pair named
/// `key`, or the empty text when no pair has that name.
pub proof fn law_last_value_is_last_pair(pairs: Seq<(Seq<char>, Seq<char>)>, key: Seq<char>)
    ensures
        forall|i: int|
            0 <= i < pairs.len() && #[trigger] pairs[i].0 == key && (forall|j: int|
                i < j < pairs.len() ==> pairs[j].0 != key) ==> last_value(pairs, key) == pairs[i].1,
        (forall|i: int| 0 <= i < pairs.len() ==> pairs[i].0 != key) ==> last_value(pairs, key)
            == Seq::<char>::empty(),
    decreases pairs.len(),
{
    if pairs.len() > 0 {
        let init = pairs.drop_last();
        law_last_value_is_last_pair(init, key);
        if pairs.last().0 == key {
            assert forall|i: int|
                0 <= i < pairs.len() && #[trigger] pairs[i].0 == key && (forall|j: int|
                    i < j < pairs.len() ==> pairs[j].0 != key) implies i == pairs.len() - 1 by {
                if i < pairs.len() - 1 {
                    assert(pairs[pairs.len() - 1].0 != key);
                }
            }
        } else {
            assert forall|i: int|
                0 <= i < pairs.len() && #[trigger] pairs[i].0 == key && (forall|j: int|
                    i < j < pairs.len() ==> pairs[j].0 != key) implies last_value(pairs, key)
                == pairs[i].1 by {
                assert(i < pairs.len() - 1);
                assert(init[i] == pairs[i]);
                assert forall|j: int| i < j < init.len() implies init[j].0 != key by {
                    assert(init[j] == pairs[j]);
                }
            }
            if forall|i: int| 0 <= i < pairs.len() ==> pairs[i].0 != key {
                assert forall|i: int| 0 <= i < init.len() implies init[i].0 != key by {
                    assert(init[i] == pairs[i]);
                }
            }
        }
    }
}

/// Law: trimming leading slashes drops a prefix made only of slashes and
/// keeps the rest, which does not start with a slash.
pub proof fn law_trim_leading_slashes(s: Seq<char>)
    ensures
        exists|n: int|
            0 <= n <= s.len() && trim_leading_slashes(s) == s.skip(n) && (forall|k: int|
                0 <= k < n ==> #[trigger] s[k] == '/'),
        trim_leading_slashes(s).len() == 0 || trim_leading_slashes(s)[0] != '/',
    decreases s.len(),
{
    if s.len() > 0 && s[0] == '/' {
        law_trim_leading_slashes(s.drop_first());
        let t = s.drop_first();
        let n = choose|n: int|
            0 <= n <= t.len() && trim_leading_slashes(t) == t.skip(n) && (forall|k: int|
                0 <= k < n ==> #[trigger] t[k] == '/');
        assert(t.skip(n) =~= s.skip(n + 1));
        assert forall|k: int| 0 <= k < n + 1 implies #[trigger] s[k] == '/' by {
            if k > 0 {
                assert(s[k] == t[k - 1]);
            }
        }
    } else {
        assert(s.skip(0) =~= s);
    }
}

/// The invite that a parsed address holds, or none when its scheme is
/// neither `anytype` nor `http`/`https`.
pub open spec fn invite_of(p: UrlPartsView) -> Option<InviteView> {
    if p.scheme == "anytype"@ {
        Some(
            InviteView {
                cid: last_value(p.query_pairs, "cid"@),
                key: last_value(p.query_pairs, "key"@),
                space_id: last_value(p.query_pairs, "spaceId"@),
            },
        )
    } else if p.scheme == "http"@ || p.scheme == "https"@ {
        Some(
            InviteView {
                cid: trim_leading_slashes(p.path),
                key: match p.fragment {
                    Some(f) => f,
                    None => Seq::empty(),
                },
                space_id: Seq::empty(),
            },
        )
    } else {
        None
    }
}

impl View for ParsedInvite {
    type V = InviteView;

    open spec fn view(&self) -> InviteView {
        InviteView { cid: self.cid@, key: self.key@, space_id: self.space_id@ }
    }
}

/// The text with its leading slashes taken off.
pub fn trim_start_slashes(s: &str) -> (r: String)
    ensures
        r@ == trim_leading_slashes(s@),
{
    let n = s.unicode_len();
    let mut i: usize = 0;
    assert(s@.subrange(0, n as int) =~= s@);
    while i < n && s.get_char(i) == '/'
        invariant
            n == s@.len(),
            i <= n,
            trim_leading_slashes(s@) == trim_leading_slashes(s@.subrange(i as int, n as int)),
        decreases n - i,
    {
        assert(s@.subrange(i as int, n as int).drop_first() =~= s@.subrange(i + 1, n as int));
        i = i + 1;
    }
    s.substring_char(i, n).to_owned()
}

/// Reads the invite from a parsed address: from the `cid`, `key` and
/// `spaceId` query pairs of an `anytype:` address (the last of each counts,
/// a missing one is empty), or from the path (without leading slashes) and
/// fragment of a web address.
pub fn invite_from_parts(p: &UrlParts) -> (r: Result<ParsedInvite, InviteError>)
    ensures
        match invite_of(p@) {
            Some(iv) => r matches Ok(inv) && inv@ == iv,
            None => r matches Err(InviteError::InvalidScheme),
        },
{
    if same_text(p.scheme.as_str(), "anytype") {
        let mut cid = String::new();
        let mut key = String::new();
        let mut space_id = String::new();
        let ghost q = p@.query_pairs;
        proof {
            reveal_strlit("cid");
            reveal_strlit("key");
            reveal_strlit("spaceId");
            assert("cid"@[0] == 'c');
            assert("key"@[0] == 'k');
            assert("spaceId"@[0] == 's');
            assert("cid"@ != "key"@);
            assert("cid"@ != "spaceId"@);
            assert("key"@ != "spaceId"@);
        }
        let mut i: usize = 0;
        assert(q.take(0) =~= Seq::<(Seq<char>, Seq<char>)>::empty());
        while i < p.query_pairs.len()
            invariant
                i <= p.query_pairs.len(),
                q == p@.query_pairs,
                q.len() == p.query_pairs@.len(),
                "cid"@ != "key"@,
                "cid"@ != "spaceId"@,
                "key"@ != "spaceId"@,
                cid@ == last_value(q.take(i as int), "cid"@),
                key@ == last_value(q.take(i as int), "key"@),
                space_id@ == last_value(q.take(i as int), "spaceId"@),
            decreases p.query_pairs.len() - i,
        {
            assert(q.take(i + 1).drop_last() =~= q.take(i as int));
            assert(q.take(i + 1).last() == q[i as int]);
            let (k, v) = &p.query_pairs[i];
            if same_text(k.as_str(), "cid") {
                cid = v.clone();
            } else if same_text(k.as_str(), "key") {
                key = v.clone();
            } else if same_text(k.as_str(), "spaceId") {
                space_id = v.clone();
            }
            i = i + 1;
        }
        assert(q.take(q.len() as int) =~= q);
        return Ok(ParsedInvite { cid, key, space_id });
    }
    if same_text(p.scheme.as_str(), "http") || same_text(p.scheme.as_str(), "https") {
        let cid = trim_start_slashes(p.path.as_str());
        let key = match &p.fragment {
            Some(f) => f.clone(),
            None => String::new(),
        };
        return Ok(ParsedInvite { cid, key, space_id: String::new() });
    }
    Err(InviteError::InvalidScheme)
}

/// Reads a space invite from a link: an empty link is refused, then the link
/// is parsed as an address and the invite read from its parts.
pub fn parse_invite_url(invite_url: &str) -> (r: Result<ParsedInvite, InviteError>)
    ensures
        invite_url@.len() == 0 ==> r matches Err(InviteError::Empty),
        invite_url@.len() != 0 ==> match url_parse_outcome(invite_url@) {
            Err(e) => r matches Err(InviteError::InvalidUrl(e2)) && e2 == e,
            Ok(pv) => match invite_of(pv) {
                Some(iv) => r matches Ok(inv) && inv@ == iv,
                None => r matches Err(InviteError::InvalidScheme),
            },
        },
{
    if invite_url.unicode_len() == 0 {
        return Err(InviteError::Empty);
    }
    match parse_url(invite_url) {
        Err(e) => Err(InviteError::InvalidUrl(e)),
        Ok(parts) => invite_from_parts(&parts),
    }
}

/// The space to join: the one the invite names, or else the one the preview
/// of the invite named.
pub fn target_space_id(invite: &ParsedInvite, preview_space_id: String) -> (r: String)
    ensures
        r@ == if invite.space_id@.len() != 0 {
            invite.space_id@
        } else {
            preview_space_id@
        },
{
    if invite.space_id.unicode_len() != 0 {
        invite.space_id.clone()
    } else {
        preview_space_id
    }
}

} // verus!
