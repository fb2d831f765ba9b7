//! The listener's decision on an HTTP request: which path, which query, and whether
//! the WebSocket upgrade is accepted.
use vstd::prelude::*;
use vstd::utf8::*;

verus! {

/// The only path that accepts upgrades.
pub const UPGRADE_PATH: &'static str = "/hfn";

/// Largest byte length of the application, client and session ids.
pub const MAX_ID_LEN: usize = 64;

/// Largest byte length of the client version.
pub const MAX_VERSION_LEN: usize = 16;

/// The name/value pairs of a query string, percent-decoded, in order.
pub uninterp spec fn form_pairs(query: Seq<char>) -> Seq<(Seq<char>, Seq<char>)>;

pub open spec fn pair_view(p: (String, String)) -> (Seq<char>, Seq<char>) {
    let (name, value) = p;
    (name@, value@)
}

/// Relies on url::form_urlencoded::parse: the pairs of an
/// `application/x-www-form-urlencoded` string, in order; they depend on the string alone.
#[verifier::external_body]
fn query_pairs(query: &str) -> (r: Vec<(String, String)>)
    ensures
        r@.map_values(|p: (String, String)| pair_view(p)) == form_pairs(query@),
{
    url::form_urlencoded::parse(query.as_bytes()).into_owned().collect()
}

/// The value of `u64` written in the decimal digits `d`.
pub open spec fn digits_value(d: Seq<char>) -> int
    decreases d.len(),
{
    if d.len() == 0 {
        0
    } else {
        digits_value(d.drop_last()) * 10 + (d.last() as int - '0' as int)
    }
}

/// A decimal `u64`: an optional `+`, then one or more ASCII digits, within range.
pub open spec fn decimal_u64(s: Seq<char>) -> Option<u64> {
    let d = if s.len() > 0 && s[0] == '+' {
        s.drop_first()
    } else {
        s
    };
    if d.len() > 0 && (forall|i: int| 0 <= i < d.len() ==> '0' <= #[trigger] d[i] <= '9')
        && digits_value(d) <= u64::MAX {
        Some(digits_value(d) as u64)
    } else {
        None
    }
}

/// Relies on `<u64 as FromStr>::from_str`: an optional `+` followed by decimal digits,
/// refused when empty, when any other character occurs, or when out of range.
#[verifier::external_body]
fn parse_u64(s: &str) -> (r: Option<u64>)
    ensures
        r == decimal_u64(s@),
{
    s.parse::<u64>().ok()
}

/// The value of the last pair named `name`; a later pair overrides an earlier one.
pub open spec fn lookup(pairs: Seq<(Seq<char>, Seq<char>)>, name: Seq<char>) -> Option<Seq<char>>
    decreases pairs.len(),
{
    if pairs.len() == 0 {
        None
    } else if pairs.last().0 == name {
        Some(pairs.last().1)
    } else {
        lookup(pairs.drop_last(), name)
    }
}

/// What an accepted upgrade learned from the query.
pub struct UpgradeParams {
    pub client_id: String,
    pub session_id: String,
    pub client_version: String,
    pub client_ts: u64,
}

/// The listener's answer to a request.
pub enum Upgrade {
    /// 404: any other path.
    NotFound,
    /// 400: not an upgrade, or a missing, oversize or wrong parameter.
    BadRequest,
    /// 101: the upgrade goes ahead.
    Accept(UpgradeParams),
}

/// The parameters that a valid query holds for the application `app_id`, or `None`:
/// `aid`, `cid`, `sid`, `ver` and `ts` all present, the three ids at most 64 bytes,
/// the version at most 16, `ts` a decimal `u64`, and `aid` equal to `app_id`.
pub open spec fn valid_query(pairs: Seq<(Seq<char>, Seq<char>)>, app_id: Seq<char>) -> Option<
    (Seq<char>, Seq<char>, Seq<char>, u64),
> {
    let aid = lookup(pairs, "aid"@);
    let cid = lookup(pairs, "cid"@);
    let sid = lookup(pairs, "sid"@);
    let ver = lookup(pairs, "ver"@);
    let ts = lookup(pairs, "ts"@);
    if aid is Some && cid is Some && sid is Some && ver is Some && ts is Some && decimal_u64(
        ts->0,
    ) is Some && encode_utf8(aid->0).len() <= MAX_ID_LEN && encode_utf8(cid->0).len()
        <= MAX_ID_LEN && encode_utf8(sid->0).len() <= MAX_ID_LEN && encode_utf8(ver->0).len()
        <= MAX_VERSION_LEN && aid->0 == app_id {
        Some((cid->0, sid->0, ver->0, decimal_u64(ts->0)->0))
    } else {
        None
    }
}

/// The value of the last pair named `name`.
fn find(pairs: &Vec<(String, String)>, name: &str) -> (r: Option<String>)
    ensures
        match lookup(pairs@.map_values(|p: (String, String)| pair_view(p)), name@) {
            Some(v) => r matches Some(x) && x@ == v,
            None => r is None,
        },
{
    let key = name.to_owned();
    let ghost all = pairs@.map_values(|p: (String, String)| pair_view(p));
    let mut i: usize = pairs.len();
    assert(all.subrange(0, i as int) =~= all);
    while i > 0
        invariant
            i <= pairs@.len(),
            key@ == name@,
            all == pairs@.map_values(|p: (String, String)| pair_view(p)),
            lookup(all, name@) == lookup(all.subrange(0, i as int), name@),
        decreases i,
    {
        let ghost upto = all.subrange(0, i as int);
        assert(upto.drop_last() =~= all.subrange(0, i - 1));
        let (n, v) = &pairs[i - 1];
        if *n == key {
            return Some(v.clone());
        }
        i = i - 1;
    }
    assert(all.subrange(0, 0) =~= Seq::<(Seq<char>, Seq<char>)>::empty());
    None
}

/// The listener of server mode.
pub struct Server {
    /// The address it binds, `host:port`.
    pub addr: String,
}

impl Server {
    /// The parameters of an upgrade for the application `app_id`, from the pairs of its
    /// query; `None` where the query is not valid.
    pub fn validate_query(pairs: &Vec<(String, String)>, app_id: &str) -> (r: Option<
        UpgradeParams,
    >)
        ensures
            match valid_query(pairs@.map_values(|p: (String, String)| pair_view(p)), app_id@) {
                Some((cid, sid, ver, ts)) => r matches Some(u) && u.client_id@ == cid
                    && u.session_id@ == sid && u.client_version@ == ver && u.client_ts == ts,
                None => r is None,
            },
    {
        proof {
            reveal_strlit("aid");
            reveal_strlit("cid");
            reveal_strlit("sid");
            reveal_strlit("ver");
            reveal_strlit("ts");
        }
        let aid = match find(pairs, "aid") {
            Some(v) => v,
            None => return None,
        };
        let cid = match find(pairs, "cid") {
            Some(v) => v,
            None => return None,
        };
        let sid = match find(pairs, "sid") {
            Some(v) => v,
            None => return None,
        };
        let ver = match find(pairs, "ver") {
            Some(v) => v,
            None => return None,
        };
        let ts = match find(pairs, "ts") {
            Some(v) => v,
            None => return None,
        };
        let client_ts = match parse_u64(ts.as_str()) {
            Some(t) => t,
            None => return None,
        };
        if aid.as_str().as_bytes().len() > MAX_ID_LEN || cid.as_str().as_bytes().len() > MAX_ID_LEN
            || sid.as_str().as_bytes().len() > MAX_ID_LEN
            || ver.as_str().as_bytes().len() > MAX_VERSION_LEN {
            return None;
        }
        let expected = app_id.to_owned();
        if !(aid == expected) {
            return None;
        }
        Some(UpgradeParams { client_id: cid, session_id: sid, client_version: ver, client_ts })
    }

    /// The answer to a request for `path` with the query `query`, for the application
    /// `app_id`; `is_upgrade` says whether it asks for a WebSocket upgrade.
    pub fn check_upgrade(path: &str, is_upgrade: bool, query: Option<&str>, app_id: &str) -> (r:
        Upgrade)
        ensures
            path@ != UPGRADE_PATH@ ==> r is NotFound,
            path@ == UPGRADE_PATH@ && (!is_upgrade || query is None) ==> r is BadRequest,
            path@ == UPGRADE_PATH@ && is_upgrade && query is Some ==> match valid_query(
                form_pairs(query->0@),
                app_id@,
            ) {
                Some((cid, sid, ver, ts)) => r matches Upgrade::Accept(u) && u.client_id@ == cid
                    && u.session_id@ == sid && u.client_version@ == ver && u.client_ts == ts,
                None => r is BadRequest,
            },
    {
        let upgrade_path = UPGRADE_PATH.to_owned();
        if !(path.to_owned() == upgrade_path) {
            return Upgrade::NotFound;
        }
        if !is_upgrade {
            return Upgrade::BadRequest;
        }
        let q = match query {
            Some(q) => q,
            None => return Upgrade::BadRequest,
        };
        let pairs = query_pairs(q);
        match Self::validate_query(&pairs, app_id) {
            Some(u) => Upgrade::Accept(u),
            None => Upgrade::BadRequest,
        }
    }
}

impl Upgrade {
    /// The HTTP status of the answer.
    pub fn status(&self) -> (r: u16)
        ensures
            r == match self {
                Upgrade::NotFound => 404u16,
                Upgrade::BadRequest => 400u16,
                Upgrade::Accept(_) => 101u16,
            },
    {
        match self {
            Upgrade::NotFound => 404,
            Upgrade::BadRequest => 400,
            Upgrade::Accept(_) => 101,
        }
    }

    /// The body of the answer: "Bad Request" for a 400, empty otherwise.
    pub fn body(&self) -> (r: &'static str)
        ensures
            self is BadRequest ==> r@ == "Bad Request"@,
            !(self is BadRequest) ==> r@.len() == 0,
    {
        proof {
            reveal_strlit("Bad Request");
            reveal_strlit("");
        }
        match self {
            Upgrade::BadRequest => "Bad Request",
            _ => "",
        }
    }
}

/// For each of the five parameters, a query without it, or with it over its size cap,
/// is refused; one that holds all five within their caps, with a decimal `ts` and
/// `aid` equal to the application id, is accepted.
pub proof fn lemma_upgrade_validation(pairs: Seq<(Seq<char>, Seq<char>)>, app_id: Seq<char>)
    ensures
        lookup(pairs, "aid"@) is None ==> valid_query(pairs, app_id) is None,
        lookup(pairs, "cid"@) is None ==> valid_query(pairs, app_id) is None,
        lookup(pairs, "sid"@) is None ==> valid_query(pairs, app_id) is None,
        lookup(pairs, "ver"@) is None ==> valid_query(pairs, app_id) is None,
        lookup(pairs, "ts"@) is None ==> valid_query(pairs, app_id) is None,
        lookup(pairs, "aid"@) matches Some(v) && encode_utf8(v).len() > MAX_ID_LEN
            ==> valid_query(pairs, app_id) is None,
        lookup(pairs, "cid"@) matches Some(v) && encode_utf8(v).len() > MAX_ID_LEN
            ==> valid_query(pairs, app_id) is None,
        lookup(pairs, "sid"@) matches Some(v) && encode_utf8(v).len() > MAX_ID_LEN
            ==> valid_query(pairs, app_id) is None,
        lookup(pairs, "ver"@) matches Some(v) && encode_utf8(v).len() > MAX_VERSION_LEN
            ==> valid_query(pairs, app_id) is None,
        ({
            let cid = lookup(pairs, "cid"@);
            let sid = lookup(pairs, "sid"@);
            let ver = lookup(pairs, "ver"@);
            let ts = lookup(pairs, "ts"@);
            &&& lookup(pairs, "aid"@) == Some(app_id)
            &&& encode_utf8(app_id).len() <= MAX_ID_LEN
            &&& cid is Some && encode_utf8(cid->0).len() <= MAX_ID_LEN
            &&& sid is Some && encode_utf8(sid->0).len() <= MAX_ID_LEN
            &&& ver is Some && encode_utf8(ver->0).len() <= MAX_VERSION_LEN
            &&& ts is Some && decimal_u64(ts->0) is Some
        }) ==> valid_query(pairs, app_id) is Some,
{
}

} // verus!
