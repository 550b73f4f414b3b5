//! The configuration value and the identity resolver over it.
//!
//! `Config` holds the inclusive id range, the group naming policy and the
//! login shell. All resolution is a pure function of a `Config` and the
//! queried id or name: user names are `"user-"` followed by the canonical
//! decimal id, group naming either mirrors user naming (one group per user)
//! or is the single fixed name `"users"` (shared-group mode).

use vstd::prelude::*;

use crate::decimal::append_decimal;
use crate::decimal::dec_value;
use crate::decimal::is_canonical_decimal;
use crate::decimal::lemma_canonical_inverse;
use crate::decimal::lemma_dec_value_bound;
use crate::decimal::lemma_spec_decimal_canonical;
use crate::decimal::parse_decimal;
use crate::decimal::spec_decimal;
use crate::records::Group;
use crate::records::Passwd;

verus! {

/// The characters every synthesized user name starts with.
pub open spec fn user_name_prefix() -> Seq<char> {
    seq!['u', 's', 'e', 'r', '-']
}

/// The fixed group name reported in shared-group mode.
pub open spec fn shared_group_name() -> Seq<char> {
    seq!['u', 's', 'e', 'r', 's']
}

/// The placeholder password marker on every record.
pub open spec fn password_marker() -> Seq<char> {
    seq!['x']
}

/// The fixed home directory reported on every user record.
pub open spec fn home_dir() -> Seq<char> {
    seq!['/', 't', 'm', 'p']
}

/// The canonical name of a user id: `"user-"` followed by its decimal form.
pub open spec fn spec_user_name(id: u32) -> Seq<char> {
    user_name_prefix() + spec_decimal(id as nat)
}

/// Immutable per-process configuration: the id range to synthesize, the
/// group naming policy, and the login shell to report.
#[derive(Clone, Debug, PartialEq, Eq)]
pub struct Config {
    /// Minimum user id to synthesize, inclusive.
    pub uid_min: u32,
    /// Maximum user id to synthesize, inclusive.
    pub uid_max: u32,
    /// If set, all users share this primary group id (shared-group mode).
    /// If unset, each user id doubles as its own group id.
    pub user_group: Option<u32>,
    /// Login shell reported verbatim on every user record.
    pub shell: String,
}

impl Config {
    /// A validated configuration: a nonempty range and a nonempty shell.
    pub open spec fn wf(self) -> bool {
        self.uid_min <= self.uid_max && self.shell@.len() > 0
    }

    /// Does `id` fall within the synthesized range?
    pub open spec fn spec_in_range(self, id: u32) -> bool {
        self.uid_min <= id <= self.uid_max
    }

    /// How many ids the range holds.
    pub open spec fn spec_id_count(self) -> int {
        self.uid_max - self.uid_min + 1
    }

    /// The name synthesized for a user id, when the id is in range.
    pub open spec fn spec_name_for_uid(self, uid: u32) -> Option<Seq<char>> {
        if self.spec_in_range(uid) {
            Some(spec_user_name(uid))
        } else {
            None
        }
    }

    /// The user id a name resolves to: the name must be the prefix followed
    /// by a canonical decimal numeral whose value lies in the range.
    pub open spec fn spec_uid_from_name(self, s: Seq<char>) -> Option<u32> {
        if s.len() > 5 && s.subrange(0, 5) == user_name_prefix() && is_canonical_decimal(
            s.skip(5),
        ) && self.uid_min <= dec_value(s.skip(5)) <= self.uid_max {
            Some(dec_value(s.skip(5)) as u32)
        } else {
            None
        }
    }

    /// The primary group id of a user id: the shared group if one is
    /// configured, else the user id itself.
    pub open spec fn spec_gid_for_uid(self, uid: u32) -> Option<u32> {
        if self.spec_in_range(uid) {
            match self.user_group {
                None => Some(uid),
                Some(g) => Some(g),
            }
        } else {
            None
        }
    }

    /// The name synthesized for a group id, by mode: per-user groups mirror
    /// user naming; a shared group answers only to its own id.
    pub open spec fn spec_name_for_gid(self, gid: u32) -> Option<Seq<char>> {
        match self.user_group {
            None => self.spec_name_for_uid(gid),
            Some(g) => if gid == g {
                Some(shared_group_name())
            } else {
                None
            },
        }
    }

    /// The group id a name resolves to, mirroring `spec_name_for_gid`.
    pub open spec fn spec_gid_from_name(self, s: Seq<char>) -> Option<u32> {
        match self.user_group {
            None => self.spec_uid_from_name(s),
            Some(g) => if s == shared_group_name() {
                Some(g)
            } else {
                None
            },
        }
    }

    /// The user ids of the range, in ascending order.
    pub fn uid_range(&self) -> (r: Vec<u32>)
        requires
            self.wf(),
        ensures
            r@.len() == self.spec_id_count(),
            forall|i: int| 0 <= i < r@.len() ==> r@[i] == self.uid_min + i,
    {
        let mut r: Vec<u32> = Vec::new();
        let n: u64 = (self.uid_max - self.uid_min) as u64 + 1;
        let mut i: u64 = 0;
        while i < n
            invariant
                self.wf(),
                n == self.spec_id_count(),
                0 <= i <= n,
                r@.len() == i,
                forall|j: int| 0 <= j < r@.len() ==> r@[j] == self.uid_min + j,
            decreases n - i,
        {
            let uid: u32 = self.uid_min + (i as u32);
            r.push(uid);
            i = i + 1;
        }
        r
    }

    /// The username for a user id, if it is in range.
    pub fn name_for_uid(&self, uid: u32) -> (r: Option<String>)
        requires
            self.wf(),
        ensures
            match r {
                Some(name) => self.spec_name_for_uid(uid) == Some(name@),
                None => self.spec_name_for_uid(uid) is None,
            },
    {
        if self.uid_min <= uid && uid <= self.uid_max {
            let mut s = String::from_str("user-");
            proof {
                reveal_strlit("user-");
                assert(s@ =~= user_name_prefix());
            }
            append_decimal(&mut s, uid);
            Some(s)
        } else {
            None
        }
    }

    /// Extract a user id from a username; names not synthesized for an
    /// in-range id are rejected.
    pub fn uid_from_name(&self, name: &str) -> (r: Option<u32>)
        requires
            self.wf(),
        ensures
            r == self.spec_uid_from_name(name@),
    {
        let len: usize = name.unicode_len();
        if len <= 5 {
            return None;
        }
        if name.get_char(0) != 'u' || name.get_char(1) != 's' || name.get_char(2) != 'e'
            || name.get_char(3) != 'r' || name.get_char(4) != '-' {
            proof {
                if name@.subrange(0, 5) == user_name_prefix() {
                    assert(name@[0] == name@.subrange(0, 5)[0]);
                    assert(name@[1] == name@.subrange(0, 5)[1]);
                    assert(name@[2] == name@.subrange(0, 5)[2]);
                    assert(name@[3] == name@.subrange(0, 5)[3]);
                    assert(name@[4] == name@.subrange(0, 5)[4]);
                }
            }
            return None;
        }
        proof {
            assert(name@.subrange(0, 5) =~= user_name_prefix());
        }
        proof {
            if is_canonical_decimal(name@.skip(5)) {
                lemma_dec_value_bound(name@.skip(5));
            }
        }
        match parse_decimal(name, 5) {
            None => None,
            Some(v) => {
                if self.uid_min <= v && v <= self.uid_max {
                    Some(v)
                } else {
                    None
                }
            },
        }
    }

    /// The primary group id for a user id, if it is in range.
    pub fn gid_for_uid(&self, uid: u32) -> (r: Option<u32>)
        requires
            self.wf(),
        ensures
            r == self.spec_gid_for_uid(uid),
    {
        if self.uid_min <= uid && uid <= self.uid_max {
            match self.user_group {
                None => Some(uid),
                Some(g) => Some(g),
            }
        } else {
            None
        }
    }

    /// The name for a group id, if the group is synthesized at all.
    pub fn name_for_gid(&self, gid: u32) -> (r: Option<String>)
        requires
            self.wf(),
        ensures
            match r {
                Some(name) => self.spec_name_for_gid(gid) == Some(name@),
                None => self.spec_name_for_gid(gid) is None,
            },
    {
        match self.user_group {
            None => self.name_for_uid(gid),
            Some(g) => {
                if gid == g {
                    let s = String::from_str("users");
                    proof {
                        reveal_strlit("users");
                        assert(s@ =~= shared_group_name());
                    }
                    Some(s)
                } else {
                    None
                }
            },
        }
    }

    /// Does `p` hold exactly the user record synthesized for `uid`?
    pub open spec fn spec_passwd_ok(self, uid: u32, p: Passwd) -> bool {
        &&& p.name@ == spec_user_name(uid)
        &&& p.passwd@ == password_marker()
        &&& p.uid == uid
        &&& self.spec_gid_for_uid(uid) == Some(p.gid)
        &&& p.gecos@ == Seq::<char>::empty()
        &&& p.dir@ == home_dir()
        &&& p.shell@ == self.shell@
    }

    /// Does `g` hold exactly the group record synthesized for `gid`?
    pub open spec fn spec_group_ok(self, gid: u32, g: Group) -> bool {
        &&& self.spec_name_for_gid(gid) == Some(g.name@)
        &&& g.passwd@ == password_marker()
        &&& g.gid == gid
        &&& g.members@.len() == 0
    }

    /// Build the full user record for a user id, if it is in range.
    pub fn uid_to_passwd(&self, uid: u32) -> (r: Option<Passwd>)
        requires
            self.wf(),
        ensures
            match r {
                Some(p) => self.spec_in_range(uid) && self.spec_passwd_ok(uid, p),
                None => !self.spec_in_range(uid),
            },
    {
        let name = match self.name_for_uid(uid) {
            None => return None,
            Some(n) => n,
        };
        let gid = match self.gid_for_uid(uid) {
            None => return None,
            Some(g) => g,
        };
        let p = Passwd {
            name,
            passwd: String::from_str("x"),
            uid,
            gid,
            gecos: String::new(),
            dir: String::from_str("/tmp"),
            shell: self.shell.clone(),
        };
        proof {
            reveal_strlit("x");
            reveal_strlit("/tmp");
            assert(p.passwd@ =~= password_marker());
            assert(p.dir@ =~= home_dir());
        }
        Some(p)
    }

    /// Build the group record for a group id, if the group is synthesized.
    pub fn gid_to_group(&self, gid: u32) -> (r: Option<Group>)
        requires
            self.wf(),
        ensures
            match r {
                Some(g) => self.spec_name_for_gid(gid) is Some && self.spec_group_ok(gid, g),
                None => self.spec_name_for_gid(gid) is None,
            },
    {
        let name = match self.name_for_gid(gid) {
            None => return None,
            Some(n) => n,
        };
        let g = Group { name, passwd: String::from_str("x"), gid, members: Vec::new() };
        proof {
            reveal_strlit("x");
            assert(g.passwd@ =~= password_marker());
        }
        Some(g)
    }

    /// Look a user up by name: resolve the name, then build the record.
    pub fn passwd_for_name(&self, name: &str) -> (r: Option<Passwd>)
        requires
            self.wf(),
        ensures
            match r {
                Some(p) => self.spec_uid_from_name(name@) == Some(p.uid) && self.spec_passwd_ok(
                    p.uid,
                    p,
                ),
                None => self.spec_uid_from_name(name@) is None,
            },
    {
        match self.uid_from_name(name) {
            None => None,
            Some(uid) => {
                proof {
                    lemma_dec_value_bound(name@.skip(5));
                }
                self.uid_to_passwd(uid)
            },
        }
    }

    /// Look a group up by name: resolve the name, then build the record.
    pub fn group_for_name(&self, name: &str) -> (r: Option<Group>)
        requires
            self.wf(),
        ensures
            match r {
                Some(g) => self.spec_gid_from_name(name@) == Some(g.gid) && self.spec_group_ok(
                    g.gid,
                    g,
                ),
                None => self.spec_gid_from_name(name@) is None,
            },
    {
        match self.gid_from_name(name) {
            None => None,
            Some(gid) => {
                proof {
                    if self.user_group is None {
                        lemma_dec_value_bound(name@.skip(5));
                    }
                }
                self.gid_to_group(gid)
            },
        }
    }

    /// All synthesized user records, in ascending id order.
    pub fn all_passwds(&self) -> (r: Vec<Passwd>)
        requires
            self.wf(),
        ensures
            r@.len() == self.spec_id_count(),
            forall|i: int|
                0 <= i < r@.len() ==> self.spec_passwd_ok(
                    (self.uid_min + i) as u32,
                    #[trigger] r@[i],
                ),
    {
        let mut r: Vec<Passwd> = Vec::new();
        let n: u64 = (self.uid_max - self.uid_min) as u64 + 1;
        let mut i: u64 = 0;
        while i < n
            invariant
                self.wf(),
                n == self.spec_id_count(),
                0 <= i <= n,
                r@.len() == i,
                forall|j: int|
                    0 <= j < r@.len() ==> self.spec_passwd_ok(
                        (self.uid_min + j) as u32,
                        #[trigger] r@[j],
                    ),
            decreases n - i,
        {
            let uid: u32 = self.uid_min + (i as u32);
            match self.uid_to_passwd(uid) {
                Some(p) => r.push(p),
                None => {
                    proof {
                        assert(false);
                    }
                },
            }
            i = i + 1;
        }
        r
    }

    /// All synthesized group records: one per user id in per-user-group
    /// mode, exactly one in shared-group mode.
    pub fn all_groups(&self) -> (r: Vec<Group>)
        requires
            self.wf(),
        ensures
            self.user_group is None ==> r@.len() == self.spec_id_count() && (forall|i: int|
                0 <= i < r@.len() ==> self.spec_group_ok((self.uid_min + i) as u32, #[trigger] r@[i])),
            self.user_group matches Some(g) ==> r@.len() == 1 && self.spec_group_ok(g, r@[0]),
    {
        match self.user_group {
            None => {
                let mut r: Vec<Group> = Vec::new();
                let n: u64 = (self.uid_max - self.uid_min) as u64 + 1;
                let mut i: u64 = 0;
                while i < n
                    invariant
                        self.wf(),
                        self.user_group is None,
                        n == self.spec_id_count(),
                        0 <= i <= n,
                        r@.len() == i,
                        forall|j: int|
                            0 <= j < r@.len() ==> self.spec_group_ok(
                                (self.uid_min + j) as u32,
                                #[trigger] r@[j],
                            ),
                    decreases n - i,
                {
                    let gid: u32 = self.uid_min + (i as u32);
                    match self.gid_to_group(gid) {
                        Some(g) => r.push(g),
                        None => {
                            proof {
                                assert(false);
                            }
                        },
                    }
                    i = i + 1;
                }
                r
            },
            Some(shared) => {
                let mut r: Vec<Group> = Vec::new();
                match self.gid_to_group(shared) {
                    Some(g) => r.push(g),
                    None => {
                        proof {
                            assert(false);
                        }
                    },
                }
                r
            },
        }
    }

    /// Extract a group id from a group name, mirroring `name_for_gid`.
    pub fn gid_from_name(&self, name: &str) -> (r: Option<u32>)
        requires
            self.wf(),
        ensures
            r == self.spec_gid_from_name(name@),
    {
        match self.user_group {
            None => self.uid_from_name(name),
            Some(g) => {
                if is_shared_group_name(name) {
                    Some(g)
                } else {
                    None
                }
            },
        }
    }
}

/// Round-trip law: for every id in the configured range, the synthesized
/// user name resolves back to exactly that id.
pub proof fn lemma_user_name_roundtrip(c: Config, uid: u32)
    requires
        c.wf(),
        c.spec_in_range(uid),
    ensures
        c.spec_uid_from_name(spec_user_name(uid)) == Some(uid),
{
    lemma_spec_decimal_canonical(uid as nat);
    let s = spec_user_name(uid);
    assert(s.subrange(0, 5) =~= user_name_prefix());
    assert(s.skip(5) =~= spec_decimal(uid as nat));
}

/// Rejection law: a name resolves to an id only if it is exactly the
/// canonical name of that id, and the id lies in the configured range. Every
/// other string - out-of-range ids, malformed numerals, foreign prefixes -
/// resolves to nothing.
pub proof fn lemma_uid_from_name_exact(c: Config, s: Seq<char>, uid: u32)
    requires
        c.wf(),
        c.spec_uid_from_name(s) == Some(uid),
    ensures
        c.spec_in_range(uid),
        s == spec_user_name(uid),
{
    let digits = s.skip(5);
    lemma_dec_value_bound(digits);
    lemma_canonical_inverse(digits);
    assert(uid == dec_value(digits));
    assert(s =~= user_name_prefix() + digits);
}

/// Mode-mirroring law: whenever a group id has a name, that name resolves
/// back to exactly that group id, in either naming mode.
pub proof fn lemma_group_name_roundtrip(c: Config, gid: u32, name: Seq<char>)
    requires
        c.wf(),
        c.spec_name_for_gid(gid) == Some(name),
    ensures
        c.spec_gid_from_name(name) == Some(gid),
{
    match c.user_group {
        None => {
            lemma_user_name_roundtrip(c, gid);
        },
        Some(_) => {
        },
    }
}

/// Boundary law: both ends of the range are synthesized, and the ids just
/// outside it are not.
pub proof fn lemma_boundary_inclusive(c: Config)
    requires
        c.wf(),
    ensures
        c.spec_uid_from_name(spec_user_name(c.uid_min)) == Some(c.uid_min),
        c.spec_uid_from_name(spec_user_name(c.uid_max)) == Some(c.uid_max),
        c.uid_min > 0 ==> c.spec_name_for_uid((c.uid_min - 1) as u32) is None,
        c.uid_max < u32::MAX ==> c.spec_name_for_uid((c.uid_max + 1) as u32) is None,
{
    lemma_user_name_roundtrip(c, c.uid_min);
    lemma_user_name_roundtrip(c, c.uid_max);
}

/// Does `name` read exactly `"users"`?
fn is_shared_group_name(name: &str) -> (r: bool)
    ensures
        r == (name@ == shared_group_name()),
{
    let len: usize = name.unicode_len();
    if len != 5 {
        proof {
            if name@ == shared_group_name() {
                assert(name@.len() == 5);
            }
        }
        return false;
    }
    let r = name.get_char(0) == 'u' && name.get_char(1) == 's' && name.get_char(2) == 'e'
        && name.get_char(3) == 'r' && name.get_char(4) == 's';
    proof {
        if r {
            assert(name@ =~= shared_group_name());
        } else {
            if name@ == shared_group_name() {
                assert(name@[0] == 'u');
                assert(name@[1] == 's');
                assert(name@[2] == 'e');
                assert(name@[3] == 'r');
                assert(name@[4] == 's');
            }
        }
    }
    r
}

} // verus!
