//! Access control lists: what an entry says, and which entries are already there.

use vstd::prelude::*;

verus! {

/// All access that Windows calls reading a file.
pub const FILE_GENERIC_READ: u32 = 0x0012_0089;

/// All access that Windows calls writing a file.
pub const FILE_GENERIC_WRITE: u32 = 0x0012_0116;

/// All access that Windows calls running a file.
pub const FILE_GENERIC_EXECUTE: u32 = 0x0012_00a0;

/// Every kind of access.
pub const GENERIC_ALL: u32 = 0x1000_0000;

/// Every kind of writing.
pub const GENERIC_WRITE_MASK: u32 = 0x4000_0000;

/// Writing to a file, or adding a file to a directory.
pub const FILE_WRITE_DATA: u32 = 0x0000_0002;

/// Appending to a file, or adding a directory to a directory.
pub const FILE_APPEND_DATA: u32 = 0x0000_0004;

/// Writing extended attributes.
pub const FILE_WRITE_EA: u32 = 0x0000_0010;

/// Deleting what is in a directory.
pub const FILE_DELETE_CHILD: u32 = 0x0000_0040;

/// Writing attributes.
pub const FILE_WRITE_ATTRIBUTES: u32 = 0x0000_0100;

/// Deleting the object itself.
pub const DELETE: u32 = 0x0001_0000;

/// All writing, appending and deleting.
pub const DENY_WRITE_MASK: u32 = FILE_GENERIC_WRITE | FILE_WRITE_DATA | FILE_APPEND_DATA
    | FILE_WRITE_EA | FILE_WRITE_ATTRIBUTES | GENERIC_WRITE_MASK | DELETE | FILE_DELETE_CHILD;

/// The type of an entry that allows access.
pub const ACCESS_ALLOWED_ACE_TYPE: u8 = 0;

/// The type of an entry that denies access.
pub const ACCESS_DENIED_ACE_TYPE: u8 = 1;

/// The entry also holds for the files in a directory.
pub const OBJECT_INHERIT_ACE: u32 = 0x01;

/// The entry also holds for the directories in a directory.
pub const CONTAINER_INHERIT_ACE: u32 = 0x02;

/// The entry holds only for what is in a directory, not for the directory itself.
pub const INHERIT_ONLY_ACE: u8 = 0x08;

/// The entry also holds for everything in a directory.
pub const INHERITED_BELOW: u32 = CONTAINER_INHERIT_ACE | OBJECT_INHERIT_ACE;

/// Sets an entry that allows access.
pub const GRANT_ACCESS: i32 = 1;

/// Sets an entry that denies access.
pub const DENY_ACCESS: i32 = 3;

/// Takes all entries of a trustee away.
pub const REVOKE_ACCESS: i32 = 4;

/// The attributes of the group that stands for a logon session.
pub const SE_GROUP_LOGON_ID: u32 = 0xc000_0000;

/// An entry of an access control list, with the identifier of the account that it is about.
#[derive(Debug)]
pub struct Ace {
    /// Whether the entry allows, denies or does something else.
    pub kind: u8,
    /// To what the entry is handed down.
    pub flags: u8,
    /// The access that it is about.
    pub mask: u32,
    /// The account that it is about.
    pub sid: Vec<u8>,
}

/// Whether the entry is of the given type, holds for the object itself, is about the account and
/// covers some of the given access.
pub open spec fn concerns(ace: Ace, kind: u8, sid: Seq<u8>, access: u32) -> bool {
    &&& ace.kind == kind
    &&& ace.flags & INHERIT_ONLY_ACE == 0
    &&& ace.sid@ == sid
    &&& ace.mask & access != 0
}

/// Whether one of the entries concerns the account and some of the access.
pub open spec fn any_concerns(aces: Seq<Ace>, kind: u8, sid: Seq<u8>, access: u32) -> bool {
    exists|i: int| 0 <= i < aces.len() && concerns(#[trigger] aces[i], kind, sid, access)
}

/// Whether an entry of the list allows the account some of the access that writing a file takes.
pub open spec fn allows_some_writing(aces: Seq<Ace>, sid: Seq<u8>) -> bool {
    any_concerns(aces, ACCESS_ALLOWED_ACE_TYPE, sid, FILE_GENERIC_WRITE)
}

/// Whether an entry of the list denies the account some writing, appending or deleting.
pub open spec fn denies_some_writing(aces: Seq<Ace>, sid: Seq<u8>) -> bool {
    any_concerns(aces, ACCESS_DENIED_ACE_TYPE, sid, DENY_WRITE_MASK)
}

fn same_bytes(a: &Vec<u8>, b: &Vec<u8>) -> (r: bool)
    ensures
        r == (a@ == b@),
{
    if a.len() != b.len() {
        return false;
    }
    let n: usize = a.len();
    for i in 0..n
        invariant
            n == a@.len(),
            n == b@.len(),
            forall|k: int| 0 <= k < i ==> a@[k] == b@[k],
    {
        if a[i] != b[i] {
            assert(a@[i as int] != b@[i as int]);
            return false;
        }
    }
    assert(a@ == b@);
    true
}

fn find_concerning(aces: &Vec<Ace>, kind: u8, sid: &Vec<u8>, access: u32) -> (r: bool)
    ensures
        r == any_concerns(aces@, kind, sid@, access),
{
    let n: usize = aces.len();
    for i in 0..n
        invariant
            n == aces@.len(),
            forall|k: int| 0 <= k < i ==> !concerns(#[trigger] aces@[k], kind, sid@, access),
    {
        let ace = &aces[i];
        if ace.kind == kind && (ace.flags & INHERIT_ONLY_ACE) == 0 && same_bytes(&ace.sid, sid) && (
        ace.mask & access) != 0 {
            assert(concerns(aces@[i as int], kind, sid@, access));
            return true;
        }
    }
    false
}

/// Tells whether a list already allows the account some of the access that writing a file takes.
pub fn dacl_has_write_allow_for_sid(aces: &Vec<Ace>, sid: &Vec<u8>) -> (r: bool)
    ensures
        r == allows_some_writing(aces@, sid@),
{
    find_concerning(aces, ACCESS_ALLOWED_ACE_TYPE, sid, FILE_GENERIC_WRITE)
}

/// Tells whether a list already denies the account some writing, appending or deleting.
pub fn dacl_has_write_deny_for_sid(aces: &Vec<Ace>, sid: &Vec<u8>) -> (r: bool)
    ensures
        r == denies_some_writing(aces@, sid@),
{
    find_concerning(aces, ACCESS_DENIED_ACE_TYPE, sid, DENY_WRITE_MASK)
}

/// What to set for an account in an access control list.
#[derive(Clone, Copy, Debug, PartialEq, Eq, Structural)]
pub struct AccessEntry {
    /// The access.
    pub permissions: u32,
    /// Whether it is granted, denied or taken back.
    pub mode: i32,
    /// To what the entry is handed down.
    pub inheritance: u32,
}

/// The entry that is planned to let an account read, write and run what a path holds.
pub open spec fn allow_plan(aces: Seq<Ace>, sid: Seq<u8>) -> Option<AccessEntry> {
    if allows_some_writing(aces, sid) {
        None
    } else {
        Some(
            AccessEntry {
                permissions: FILE_GENERIC_READ | FILE_GENERIC_WRITE | FILE_GENERIC_EXECUTE,
                mode: GRANT_ACCESS,
                inheritance: INHERITED_BELOW,
            },
        )
    }
}

/// The entry that is planned to keep an account from writing, appending and deleting.
pub open spec fn deny_plan(aces: Seq<Ace>, sid: Seq<u8>) -> Option<AccessEntry> {
    if denies_some_writing(aces, sid) {
        None
    } else {
        Some(
            AccessEntry {
                permissions: DENY_WRITE_MASK,
                mode: DENY_ACCESS,
                inheritance: INHERITED_BELOW,
            },
        )
    }
}

/// The entry that lets an account read, write and run what a path holds; nothing if an
/// entry allows the account some writing already.
pub fn plan_allow_ace(aces: &Vec<Ace>, sid: &Vec<u8>) -> (r: Option<AccessEntry>)
    ensures
        r == allow_plan(aces@, sid@),
        r == (if allows_some_writing(aces@, sid@) {
            None
        } else {
            Some(
                AccessEntry {
                    permissions: FILE_GENERIC_READ | FILE_GENERIC_WRITE | FILE_GENERIC_EXECUTE,
                    mode: GRANT_ACCESS,
                    inheritance: INHERITED_BELOW,
                },
            )
        }),
{
    if dacl_has_write_allow_for_sid(aces, sid) {
        None
    } else {
        Some(
            AccessEntry {
                permissions: FILE_GENERIC_READ | FILE_GENERIC_WRITE | FILE_GENERIC_EXECUTE,
                mode: GRANT_ACCESS,
                inheritance: INHERITED_BELOW,
            },
        )
    }
}

/// The entry that keeps an account from writing, appending and deleting; nothing if an entry
/// denies the account some of it already.
pub fn plan_deny_write_ace(aces: &Vec<Ace>, sid: &Vec<u8>) -> (r: Option<AccessEntry>)
    ensures
        r == deny_plan(aces@, sid@),
        r == (if denies_some_writing(aces@, sid@) {
            None
        } else {
            Some(
                AccessEntry {
                    permissions: DENY_WRITE_MASK,
                    mode: DENY_ACCESS,
                    inheritance: INHERITED_BELOW,
                },
            )
        }),
{
    if dacl_has_write_deny_for_sid(aces, sid) {
        None
    } else {
        Some(
            AccessEntry {
                permissions: DENY_WRITE_MASK,
                mode: DENY_ACCESS,
                inheritance: INHERITED_BELOW,
            },
        )
    }
}

/// The entry that takes all entries of an account away: the planned ones and any other that the
/// account has on the object.
pub fn revoke_entry() -> (r: AccessEntry)
    ensures
        r == (AccessEntry { permissions: 0, mode: REVOKE_ACCESS, inheritance: INHERITED_BELOW }),
{
    AccessEntry { permissions: 0, mode: REVOKE_ACCESS, inheritance: INHERITED_BELOW }
}

/// The entry that lets an account do everything with a pipe or another object of its own.
pub fn full_access_entry() -> (r: AccessEntry)
    ensures
        r == (AccessEntry { permissions: GENERIC_ALL, mode: GRANT_ACCESS, inheritance: 0 }),
{
    AccessEntry { permissions: GENERIC_ALL, mode: GRANT_ACCESS, inheritance: 0 }
}

/// A group that a token belongs to.
#[derive(Debug)]
pub struct TokenGroup {
    /// The attributes of the group.
    pub attributes: u32,
    /// The identifier of the group; empty if it could not be read.
    pub sid: Vec<u8>,
}

/// Whether the group stands for the logon session and its identifier could be read.
pub open spec fn is_logon_group(group: TokenGroup) -> bool {
    group.attributes & SE_GROUP_LOGON_ID == SE_GROUP_LOGON_ID && group.sid@.len() > 0
}

/// The identifier of the first group that stands for the logon session.
pub open spec fn logon_sid(groups: Seq<TokenGroup>) -> Option<Seq<u8>>
    decreases groups.len(),
{
    if groups.len() == 0 {
        None
    } else if is_logon_group(groups[0]) {
        Some(groups[0].sid@)
    } else {
        logon_sid(groups.drop_first())
    }
}

/// Finds the identifier of the logon session among the groups of a token.
pub fn get_logon_sid(groups: &Vec<TokenGroup>) -> (r: Option<Vec<u8>>)
    ensures
        match r {
            Some(sid) => logon_sid(groups@) == Some(sid@),
            None => logon_sid(groups@) is None,
        },
{
    let n: usize = groups.len();
    assert(groups@.skip(0) == groups@);
    for i in 0..n
        invariant
            n == groups@.len(),
            logon_sid(groups@) == logon_sid(groups@.skip(i as int)),
    {
        let ghost rest = groups@.skip(i as int);
        assert(rest[0] == groups@[i as int]);
        assert(rest.drop_first() == groups@.skip(i + 1));
        let group = &groups[i];
        if (group.attributes & SE_GROUP_LOGON_ID) == SE_GROUP_LOGON_ID && group.sid.len() > 0 {
            let sid = group.sid.clone();
            assert(sid@ == group.sid@);
            return Some(sid);
        }
    }
    None
}

/// Whatever access is part of writing a file is part of what is denied.
pub proof fn law_deny_covers_writing(access: u32)
    requires
        access & FILE_GENERIC_WRITE != 0,
    ensures
        access & DENY_WRITE_MASK != 0,
{
    lemma_deny_mask();
    assert(access & 0x0012_0116u32 != 0 ==> access & 0x4013_0156u32 != 0) by (bit_vector);
}

proof fn lemma_deny_mask()
    ensures
        DENY_WRITE_MASK == 0x4013_0156u32,
{
    assert(0x0012_0116u32 | 0x0000_0002u32 | 0x0000_0004u32 | 0x0000_0010u32 | 0x0000_0100u32
        | 0x4000_0000u32 | 0x0001_0000u32 | 0x0000_0040u32 == 0x4013_0156u32) by (bit_vector);
}

/// Once the planned entry that keeps an account from writing is in the list, no second one is
/// planned.
pub proof fn law_deny_is_added_once(aces: Seq<Ace>, ace: Ace, sid: Seq<u8>)
    requires
        aces.contains(ace),
        ace.kind == ACCESS_DENIED_ACE_TYPE,
        ace.flags & INHERIT_ONLY_ACE == 0,
        ace.sid@ == sid,
        ace.mask == DENY_WRITE_MASK,
    ensures
        denies_some_writing(aces, sid),
{
    lemma_deny_mask();
    assert(0x4013_0156u32 & 0x4013_0156u32 != 0) by (bit_vector);
    let i = choose|i: int| 0 <= i < aces.len() && aces[i] == ace;
    assert(concerns(aces[i], ACCESS_DENIED_ACE_TYPE, sid, DENY_WRITE_MASK));
}

/// Once the planned entry that lets an account write is in the list, no second one is planned.
pub proof fn law_allow_is_added_once(aces: Seq<Ace>, ace: Ace, sid: Seq<u8>)
    requires
        aces.contains(ace),
        ace.kind == ACCESS_ALLOWED_ACE_TYPE,
        ace.flags & INHERIT_ONLY_ACE == 0,
        ace.sid@ == sid,
        ace.mask == FILE_GENERIC_READ | FILE_GENERIC_WRITE | FILE_GENERIC_EXECUTE,
    ensures
        allows_some_writing(aces, sid),
{
    assert((0x0012_0089u32 | 0x0012_0116u32 | 0x0012_00a0u32) & 0x0012_0116u32 != 0)
        by (bit_vector);
    let i = choose|i: int| 0 <= i < aces.len() && aces[i] == ace;
    assert(concerns(aces[i], ACCESS_ALLOWED_ACE_TYPE, sid, FILE_GENERIC_WRITE));
}

/// An entry counts as one that allows writing exactly if it is of type 0, is not only inherited
/// (bit 8), is about the account, and shares a bit with the access that writing a file takes.
pub proof fn law_what_allows_writing(aces: Seq<Ace>, sid: Seq<u8>)
    ensures
        allows_some_writing(aces, sid) <==> exists|i: int|
            0 <= i < aces.len() && (#[trigger] aces[i]).kind == 0 && aces[i].flags & 8 == 0
                && aces[i].sid@ == sid && aces[i].mask & 0x0012_0116 != 0,
{
    if allows_some_writing(aces, sid) {
        let i = choose|i: int|
            0 <= i < aces.len() && concerns(
                #[trigger] aces[i],
                ACCESS_ALLOWED_ACE_TYPE,
                sid,
                FILE_GENERIC_WRITE,
            );
        assert(aces[i].kind == 0);
    }
    if exists|i: int|
        0 <= i < aces.len() && (#[trigger] aces[i]).kind == 0 && aces[i].flags & 8 == 0
            && aces[i].sid@ == sid && aces[i].mask & 0x0012_0116 != 0 {
        let i = choose|i: int|
            0 <= i < aces.len() && (#[trigger] aces[i]).kind == 0 && aces[i].flags & 8 == 0
                && aces[i].sid@ == sid && aces[i].mask & 0x0012_0116 != 0;
        assert(concerns(aces[i], ACCESS_ALLOWED_ACE_TYPE, sid, FILE_GENERIC_WRITE));
    }
}

/// An entry counts as one that denies writing exactly if it is of type 1, is not only inherited
/// (bit 8), is about the account, and shares a bit with all writing, appending and deleting.
pub proof fn law_what_denies_writing(aces: Seq<Ace>, sid: Seq<u8>)
    ensures
        denies_some_writing(aces, sid) <==> exists|i: int|
            0 <= i < aces.len() && (#[trigger] aces[i]).kind == 1 && aces[i].flags & 8 == 0
                && aces[i].sid@ == sid && aces[i].mask & 0x4013_0156 != 0,
{
    lemma_deny_mask();
    if denies_some_writing(aces, sid) {
        let i = choose|i: int|
            0 <= i < aces.len() && concerns(
                #[trigger] aces[i],
                ACCESS_DENIED_ACE_TYPE,
                sid,
                DENY_WRITE_MASK,
            );
        assert(aces[i].kind == 1);
    }
    if exists|i: int|
        0 <= i < aces.len() && (#[trigger] aces[i]).kind == 1 && aces[i].flags & 8 == 0
            && aces[i].sid@ == sid && aces[i].mask & 0x4013_0156 != 0 {
        let i = choose|i: int|
            0 <= i < aces.len() && (#[trigger] aces[i]).kind == 1 && aces[i].flags & 8 == 0
                && aces[i].sid@ == sid && aces[i].mask & 0x4013_0156 != 0;
        assert(concerns(aces[i], ACCESS_DENIED_ACE_TYPE, sid, DENY_WRITE_MASK));
    }
}

/// What the planned entries give and take, bit by bit: reading, writing and running are granted;
/// writing, appending, deleting and writing attributes are denied, and reading is not.
pub proof fn law_planned_access()
    ensures
        FILE_GENERIC_READ | FILE_GENERIC_WRITE | FILE_GENERIC_EXECUTE == 0x0012_01bf,
        DENY_WRITE_MASK == 0x4013_0156,
        DENY_WRITE_MASK & 0x2 == 0x2,
        DENY_WRITE_MASK & 0x4 == 0x4,
        DENY_WRITE_MASK & 0x1_0000 == 0x1_0000,
        DENY_WRITE_MASK & 0x40 == 0x40,
        DENY_WRITE_MASK & 0x1 == 0,
        GENERIC_ALL == 0x1000_0000,
        INHERITED_BELOW == 3,
        GRANT_ACCESS == 1,
        DENY_ACCESS == 3,
        REVOKE_ACCESS == 4,
{
    lemma_deny_mask();
    assert(0x0012_0089u32 | 0x0012_0116u32 | 0x0012_00a0u32 == 0x0012_01bfu32) by (bit_vector);
    assert(0x4013_0156u32 & 0x2 == 0x2 && 0x4013_0156u32 & 0x4 == 0x4 && 0x4013_0156u32 & 0x1_0000
        == 0x1_0000 && 0x4013_0156u32 & 0x40 == 0x40 && 0x4013_0156u32 & 0x1 == 0) by (bit_vector);
    assert(2u32 | 1u32 == 3u32) by (bit_vector);
}

/// The logon session is the first group that has both bits of a logon identifier and whose
/// identifier could be read; without such a group there is none.
pub proof fn law_logon_session(before: Seq<TokenGroup>, group: TokenGroup, after: Seq<TokenGroup>)
    requires
        forall|i: int|
            0 <= i < before.len() ==> ((#[trigger] before[i]).attributes & 0xc000_0000
                != 0xc000_0000 || before[i].sid@.len() == 0),
    ensures
        group.attributes & 0xc000_0000 == 0xc000_0000 && group.sid@.len() > 0 ==> logon_sid(
            before.push(group) + after,
        ) == Some(group.sid@),
        logon_sid(before) is None,
    decreases before.len(),
{
    let all = before.push(group) + after;
    if before.len() == 0 {
        assert(all[0] == group);
    } else {
        let rest = before.drop_first();
        assert(all[0] == before[0]);
        assert(all.drop_first() == rest.push(group) + after);
        assert forall|i: int| 0 <= i < rest.len() implies ((#[trigger] rest[i]).attributes
            & 0xc000_0000 != 0xc000_0000 || rest[i].sid@.len() == 0) by {
            assert(rest[i] == before[i + 1]);
        }
        law_logon_session(rest, group, after);
    }
}

/// An entry is planned exactly if no entry of the account is in the way yet. The one to allow grants
/// (1) reading, writing and running; the one to deny denies (3) writing, appending and deleting; and
/// both are handed down to files and directories (3).
pub proof fn law_plans(aces: Seq<Ace>, sid: Seq<u8>)
    ensures
        allow_plan(aces, sid) is Some <==> !exists|i: int|
            0 <= i < aces.len() && (#[trigger] aces[i]).kind == 0 && aces[i].flags & 8 == 0
                && aces[i].sid@ == sid && aces[i].mask & 0x0012_0116 != 0,
        allow_plan(aces, sid) matches Some(entry) ==> entry.permissions == 0x0012_01bf && entry.mode
            == 1 && entry.inheritance == 3,
        deny_plan(aces, sid) is Some <==> !exists|i: int|
            0 <= i < aces.len() && (#[trigger] aces[i]).kind == 1 && aces[i].flags & 8 == 0
                && aces[i].sid@ == sid && aces[i].mask & 0x4013_0156 != 0,
        deny_plan(aces, sid) matches Some(entry) ==> entry.permissions == 0x4013_0156 && entry.mode
            == 3 && entry.inheritance == 3,
{
    law_what_allows_writing(aces, sid);
    law_what_denies_writing(aces, sid);
    law_planned_access();
}

} // verus!
