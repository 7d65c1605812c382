//! User identity, roles and permissions: the user-context tag carried by
//! messages, and wildcard permission matching.

use vstd::prelude::*;
use crate::text::str_eq;
use vstd::string::StrSliceExecFns;

verus! {

/// A global user identifier.
#[derive(Debug, Clone)]
pub struct UserId(pub String);

impl UserId {
    pub fn new(id: &str) -> (r: UserId)
        ensures
            r.0@ == id@,
    {
        UserId(id.to_owned())
    }
}

/// A platform identifier, such as a chat network or a command line front end.
#[derive(Debug, Clone)]
pub struct PlatformId(pub String);

/// The user identifier on the side of a platform.
#[derive(Debug, Clone)]
pub struct PlatformUserId(pub String);

/// A permission, written as colon-separated segments such as a resource
/// and an action; a segment `*` grants everything below it.
#[derive(Debug, Clone)]
pub struct Permission(pub String);

/// The segments of `s` split on `:`; empty segments are kept, and the
/// empty string has the single empty segment.
pub open spec fn split_colon(s: Seq<char>) -> Seq<Seq<char>>
    decreases s.len(),
{
    if s.len() == 0 {
        seq![Seq::<char>::empty()]
    } else if s[0] == ':' {
        seq![Seq::<char>::empty()] + split_colon(s.drop_first())
    } else {
        let rest = split_colon(s.drop_first());
        seq![seq![s[0]] + rest[0]] + rest.drop_first()
    }
}

pub proof fn lemma_split_colon_len(s: Seq<char>)
    ensures
        split_colon(s).len() >= 1,
    decreases s.len(),
{
    if s.len() > 0 {
        lemma_split_colon_len(s.drop_first());
    }
}

/// Splitting at the first `:` (at position `i`) yields the head segment
/// and the split of the remainder.
pub proof fn lemma_split_colon_at(s: Seq<char>, i: int)
    requires
        0 <= i <= s.len(),
        forall|j: int| 0 <= j < i ==> s[j] != ':',
        i == s.len() || s[i] == ':',
    ensures
        i == s.len() ==> split_colon(s) =~~= seq![s],
        i < s.len() ==> split_colon(s) =~~= seq![s.subrange(0, i)] + split_colon(
            s.subrange(i + 1, s.len() as int),
        ),
    decreases i,
{
    lemma_split_colon_len(s);
    if i == 0 {
        if i < s.len() {
            assert(s.subrange(1, s.len() as int) =~= s.drop_first());
        }
    } else {
        lemma_split_colon_at(s.drop_first(), i - 1);
        lemma_split_colon_len(s.drop_first());
        if i == s.len() {
            assert(seq![s[0]] + s.drop_first() =~= s);
        } else {
            assert(s.drop_first().subrange(0, i - 1) =~= s.subrange(1, i));
            assert(seq![s[0]] + s.subrange(1, i) =~= s.subrange(0, i));
            assert(s.drop_first().subrange(i, s.drop_first().len() as int) =~= s.subrange(
                i + 1,
                s.len() as int,
            ));
        }
    }
}

/// Whether permission segments `ps` grant required segments `rs`: segments
/// are compared pairwise, a `*` segment grants everything from there on,
/// and a permission that is a prefix of the requirement grants it.
pub open spec fn segs_grant(ps: Seq<Seq<char>>, rs: Seq<Seq<char>>) -> bool
    decreases ps.len(),
{
    if ps.len() == 0 {
        true
    } else if ps[0] =~= seq!['*'] {
        true
    } else if rs.len() == 0 {
        false
    } else if ps[0] == rs[0] {
        segs_grant(ps.drop_first(), rs.drop_first())
    } else {
        false
    }
}

/// Whether the permission string `p` grants the required permission `r`.
pub open spec fn perm_grants(p: Seq<char>, r: Seq<char>) -> bool {
    segs_grant(split_colon(p), split_colon(r))
}

/// Splits a string into its `:`-separated segments.
fn split_segments(s: &str) -> (r: Vec<String>)
    ensures
        r@.len() == split_colon(s@).len(),
        forall|i: int| 0 <= i < r@.len() ==> r@[i]@ == split_colon(s@)[i],
{
    let n = s.unicode_len();
    let mut out: Vec<String> = Vec::new();
    let mut start: usize = 0;
    let mut i: usize = 0;
    proof {
        assert(s@.subrange(0, n as int) =~= s@);
        assert(out@.map_values(|x: String| x@) =~= Seq::<Seq<char>>::empty());
        lemma_split_colon_len(s@);
    }
    while i < n
        invariant
            0 <= start <= i <= n,
            n == s@.len(),
            forall|j: int| start <= j < i ==> s@[j] != ':',
            split_colon(s@).len() >= out@.len() + 1,
            ({
                let tail = split_colon(s@.subrange(start as int, n as int));
                &&& split_colon(s@) =~= jcat(out@.map_values(|x: String| x@), tail)
            }),
        decreases n - i,
    {
        let c = s.get_char(i);
        if c == ':' {
            let seg = s.substring_char(start, i);
            proof {
                lemma_split_colon_at(s@.subrange(start as int, n as int), i - start);
                assert(s@.subrange(start as int, n as int).subrange(0, i - start) =~= s@.subrange(
                    start as int,
                    i as int,
                ));
                assert(s@.subrange(start as int, n as int).subrange(
                    i - start + 1,
                    n - start,
                ) =~= s@.subrange(i + 1, n as int));
            }
            let ghost prev = out@;
            out.push(seg.to_owned());
            proof {
                assert(out@.map_values(|x: String| x@) =~= prev.map_values(
                    |x: String| x@,
                ).push(seg@));
                lemma_split_colon_len(s@.subrange(i + 1, n as int));
            }
            start = i + 1;
        }
        i = i + 1;
    }
    let seg = s.substring_char(start, n);
    proof {
        lemma_split_colon_at(s@.subrange(start as int, n as int), n - start);
        assert(s@.subrange(start as int, n as int).subrange(0, n - start) =~= s@.subrange(
            start as int,
            n as int,
        ));
    }
    out.push(seg.to_owned());
    proof {
        let full = split_colon(s@);
        let mapped = out@.map_values(|x: String| x@);
        assert(forall|k: int| 0 <= k < full.len() ==> full[k] == mapped[k]);
        assert(full =~= mapped);
    }
    out
}

/// `a` followed by `b`.
pub open spec fn jcat(a: Seq<Seq<char>>, b: Seq<Seq<char>>) -> Seq<Seq<char>> {
    a + b
}

impl Permission {
    pub fn new(p: &str) -> (r: Permission)
        ensures
            r.0@ == p@,
    {
        Permission(p.to_owned())
    }

    /// Whether this permission grants `required`; a `*` segment grants
    /// every permission from that segment on.
    pub fn matches(&self, required: &str) -> (r: bool)
        ensures
            r == perm_grants(self.0@, required@),
    {
        let ps = split_segments(self.0.as_str());
        let rs = split_segments(required);
        let mut i: usize = 0;
        proof {
            reveal_strlit("*");
            assert("*"@ =~= seq!['*']);
            assert(split_colon(self.0@).skip(0) =~= split_colon(self.0@));
            assert(split_colon(required@).skip(0) =~= split_colon(required@));
        }
        while i < ps.len()
            invariant
                i <= ps.len(),
                i <= rs.len(),
                ps@.len() == split_colon(self.0@).len(),
                forall|k: int| 0 <= k < ps@.len() ==> ps@[k]@ == split_colon(self.0@)[k],
                rs@.len() == split_colon(required@).len(),
                forall|k: int| 0 <= k < rs@.len() ==> rs@[k]@ == split_colon(required@)[k],
                segs_grant(split_colon(self.0@), split_colon(required@)) == segs_grant(
                    split_colon(self.0@).skip(i as int),
                    split_colon(required@).skip(i as int),
                ),
            decreases ps.len() - i,
        {
            proof {
                assert(split_colon(self.0@).skip(i as int)[0] == ps@[i as int]@);
            }
            proof {
                reveal_strlit("*");
                assert("*"@ =~= seq!['*']);
            }
            if str_eq(ps[i].as_str(), "*") {
                proof {
                    assert(ps@[i as int]@ =~= seq!['*']);
                }
                return true;
            }
            proof {
                assert(ps@[i as int]@ != "*"@);
            }
            if i >= rs.len() {
                proof {
                    assert(split_colon(required@).skip(i as int).len() == 0);
                    assert(!(ps@[i as int]@ =~= seq!['*']));
                }
                return false;
            }
            if !str_eq(ps[i].as_str(), rs[i].as_str()) {
                proof {
                    assert(split_colon(required@).skip(i as int)[0] == rs@[i as int]@);
                    assert(!(ps@[i as int]@ =~= seq!['*']));
                }
                return false;
            }
            proof {
                assert(split_colon(required@).skip(i as int)[0] == rs@[i as int]@);
                assert(!(ps@[i as int]@ =~= seq!['*']));
                assert(split_colon(self.0@).skip(i as int).drop_first() =~= split_colon(
                    self.0@,
                ).skip(i + 1));
                assert(split_colon(required@).skip(i as int).drop_first() =~= split_colon(
                    required@,
                ).skip(i + 1));
            }
            i = i + 1;
        }
        proof {
            assert(split_colon(self.0@).skip(i as int).len() == 0);
        }
        true
    }
}

/// Basic information about a user.
#[derive(Debug, Clone)]
pub struct UserInfo {
    pub id: UserId,
    pub name: String,
    pub platform: PlatformId,
    pub platform_user_id: PlatformUserId,
}

/// Mathematical model of a `UserInfo`.
pub ghost struct UserInfoVal {
    pub id: Seq<char>,
    pub name: Seq<char>,
    pub platform: Seq<char>,
    pub platform_user_id: Seq<char>,
}

impl UserInfo {
    pub open spec fn uval(self) -> UserInfoVal {
        UserInfoVal {
            id: self.id.0@,
            name: self.name@,
            platform: self.platform.0@,
            platform_user_id: self.platform_user_id.0@,
        }
    }
}

/// The user context injected into a message: identity, roles and a
/// snapshot of the permissions granted for the request.
#[derive(Debug, Clone)]
pub struct UserContext {
    pub user: UserInfo,
    pub roles: Vec<String>,
    pub permissions: Vec<Permission>,
    pub expires_at: Option<u64>,
}

/// Mathematical model of a `UserContext`.
pub ghost struct UserCtxVal {
    pub user: UserInfoVal,
    pub roles: Seq<Seq<char>>,
    pub permissions: Seq<Seq<char>>,
    pub expires_at: Option<u64>,
}

impl UserContext {
    pub open spec fn cval(self) -> UserCtxVal {
        UserCtxVal {
            user: self.user.uval(),
            roles: self.roles@.map_values(|r: String| r@),
            permissions: self.permissions@.map_values(|p: Permission| p.0@),
            expires_at: self.expires_at,
        }
    }

    pub fn new(user: UserInfo) -> (r: UserContext)
        ensures
            r.cval().user == user.uval(),
            r.cval().roles.len() == 0,
            r.cval().permissions.len() == 0,
            r.cval().expires_at is None,
    {
        let r = UserContext { user, roles: Vec::new(), permissions: Vec::new(), expires_at: None };
        proof {
            assert(r.cval().roles =~= Seq::<Seq<char>>::empty());
            assert(r.cval().permissions =~= Seq::<Seq<char>>::empty());
        }
        r
    }

    pub fn with_permission(self, perm: &str) -> (r: UserContext)
        ensures
            r.cval().permissions =~= self.cval().permissions.push(perm@),
            r.cval().roles == self.cval().roles,
            r.cval().user == self.cval().user,
            r.cval().expires_at == self.cval().expires_at,
    {
        let mut s = self;
        s.permissions.push(Permission::new(perm));
        proof {
            assert(s.cval().permissions =~= self.cval().permissions.push(perm@));
            assert(s.cval().roles =~= self.cval().roles);
        }
        s
    }

    pub fn with_role(self, role: &str) -> (r: UserContext)
        ensures
            r.cval().roles =~= self.cval().roles.push(role@),
            r.cval().permissions == self.cval().permissions,
            r.cval().user == self.cval().user,
            r.cval().expires_at == self.cval().expires_at,
    {
        let mut s = self;
        s.roles.push(role.to_owned());
        proof {
            assert(s.cval().roles =~= self.cval().roles.push(role@));
            assert(s.cval().permissions =~= self.cval().permissions);
        }
        s
    }

    /// Whether this context grants `required_perm`: an `admin` or `root`
    /// role grants everything, else some held permission must match.
    pub fn has_permission(&self, required_perm: &str) -> (r: bool)
        ensures
            r == (has_role(self.cval().roles, "admin"@) || has_role(self.cval().roles, "root"@)
                || exists|i: int|
                0 <= i < self.cval().permissions.len() && perm_grants(
                    self.cval().permissions[i],
                    required_perm@,
                )),
    {
        let mut i: usize = 0;
        while i < self.roles.len()
            invariant
                i <= self.roles.len(),
                forall|j: int| 0 <= j < i ==> self.cval().roles[j] != "admin"@,
                forall|j: int| 0 <= j < i ==> self.cval().roles[j] != "root"@,
            decreases self.roles.len() - i,
        {
            let is_admin = str_eq(self.roles[i].as_str(), "admin");
            let is_root = str_eq(self.roles[i].as_str(), "root");
            if is_admin || is_root {
                proof {
                    if is_admin {
                        assert(self.cval().roles[i as int] == "admin"@);
                    } else {
                        assert(self.cval().roles[i as int] == "root"@);
                    }
                }
                return true;
            }
            i = i + 1;
        }
        let mut k: usize = 0;
        while k < self.permissions.len()
            invariant
                k <= self.permissions.len(),
                forall|j: int| 0 <= j < i ==> self.cval().roles[j] != "admin"@,
                forall|j: int| 0 <= j < i ==> self.cval().roles[j] != "root"@,
                i == self.roles.len(),
                forall|j: int|
                    0 <= j < k ==> !perm_grants(self.cval().permissions[j], required_perm@),
            decreases self.permissions.len() - k,
        {
            if self.permissions[k].matches(required_perm) {
                proof {
                    assert(perm_grants(self.cval().permissions[k as int], required_perm@));
                }
                return true;
            }
            k = k + 1;
        }
        false
    }
}

/// Whether `roles` holds the role `name`.
pub open spec fn has_role(roles: Seq<Seq<char>>, name: Seq<char>) -> bool {
    exists|i: int| 0 <= i < roles.len() && roles[i] == name
}

} // verus!
