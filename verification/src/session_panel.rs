//! The session panel: filtering and grouping the saved sessions, and the texts of its rows.

use crate::gui::{GuiAction, SshProfileEntry, TabInfo};
use crate::number;
use crate::text;
use vstd::prelude::*;
use vstd::string::StringExecFns;

verus! {

/// A text holds the filter text, without regard to case; an empty filter is held by all.
pub open spec fn holds(s: Seq<char>, filter: Seq<char>) -> bool {
    let wanted = text::lowered(filter);
    wanted.len() == 0 || text::contains_word(text::lowered(s), wanted)
}

/// A saved session passes the filter by its name, host, user or group.
pub open spec fn shown(p: SshProfileEntry, filter: Seq<char>) -> bool {
    ||| holds(p.name@, filter)
    ||| holds(p.host@, filter)
    ||| holds(p.username@, filter)
    ||| holds(p.group@, filter)
}

/// How many of the first `n` sessions pass the filter.
pub open spec fn shown_count(profiles: Seq<SshProfileEntry>, filter: Seq<char>, n: nat) -> nat
    decreases n,
{
    if n == 0 {
        0
    } else {
        shown_count(profiles, filter, (n - 1) as nat) + if shown(profiles[n - 1], filter) {
            1nat
        } else {
            0nat
        }
    }
}

/// The places, in order, of those of the first `n` sessions that pass the filter and belong to a
/// group.
pub open spec fn members_of(
    profiles: Seq<SshProfileEntry>,
    filter: Seq<char>,
    group: Seq<char>,
    n: nat,
) -> Seq<usize>
    decreases n,
{
    if n == 0 {
        Seq::empty()
    } else {
        let before = members_of(profiles, filter, group, (n - 1) as nat);
        if shown(profiles[n - 1], filter) && profiles[n - 1].group@ == group {
            before.push((n - 1) as usize)
        } else {
            before
        }
    }
}

/// A group of saved sessions.
#[derive(Debug)]
pub struct ProfileGroup {
    pub name: String,
    /// The places of its sessions in the list of profiles.
    pub members: Vec<usize>,
}

/// The groups of the first `n` sessions that pass the filter: in the order of their names, each
/// with all its sessions, none empty.
pub open spec fn grouped(
    groups: Seq<ProfileGroup>,
    profiles: Seq<SshProfileEntry>,
    filter: Seq<char>,
    n: nat,
) -> bool {
    &&& forall|i: int, j: int|
        0 <= i < j < groups.len() ==> text::precedes(
            #[trigger] groups[i].name@,
            #[trigger] groups[j].name@,
        )
    &&& forall|g: int|
        0 <= g < groups.len() ==> (#[trigger] groups[g]).members@ == members_of(
            profiles,
            filter,
            groups[g].name@,
            n,
        ) && groups[g].members@.len() > 0
    &&& forall|i: int|
        0 <= i < n && shown(#[trigger] profiles[i], filter) ==> has_group(groups, profiles[i].group@)
}

/// One of the groups has this name.
pub open spec fn has_group(groups: Seq<ProfileGroup>, name: Seq<char>) -> bool {
    exists|g: int| 0 <= g < groups.len() && (#[trigger] groups[g]).name@ == name
}

proof fn lemma_no_members(
    profiles: Seq<SshProfileEntry>,
    filter: Seq<char>,
    group: Seq<char>,
    n: nat,
)
    requires
        n <= profiles.len(),
        forall|i: int|
            0 <= i < n && shown(#[trigger] profiles[i], filter) ==> profiles[i].group@ != group,
    ensures
        members_of(profiles, filter, group, n) == Seq::<usize>::empty(),
    decreases n,
{
    if n > 0 {
        lemma_no_members(profiles, filter, group, (n - 1) as nat);
    }
}

/// The members of a group are exactly its sessions that pass the filter, each once and in order.
pub proof fn law_members_exact(
    profiles: Seq<SshProfileEntry>,
    filter: Seq<char>,
    group: Seq<char>,
    n: nat,
)
    requires
        n <= profiles.len() <= usize::MAX,
    ensures
        ({
            let m = members_of(profiles, filter, group, n);
            &&& forall|k: int|
                0 <= k < m.len() ==> (#[trigger] m[k]) < n && shown(profiles[m[k] as int], filter)
                    && profiles[m[k] as int].group@ == group
            &&& forall|j: int, k: int| 0 <= j < k < m.len() ==> #[trigger] m[j] < #[trigger] m[k]
            &&& forall|i: int|
                0 <= i < n && shown(#[trigger] profiles[i], filter) && profiles[i].group@ == group
                    ==> m.contains(i as usize)
        }),
    decreases n,
{
    if n > 0 {
        law_members_exact(profiles, filter, group, (n - 1) as nat);
        let before = members_of(profiles, filter, group, (n - 1) as nat);
        let m = members_of(profiles, filter, group, n);
        assert forall|i: int|
            0 <= i < n && shown(#[trigger] profiles[i], filter) && profiles[i].group@
                == group implies m.contains(i as usize) by {
            if i == n - 1 {
                assert(m[m.len() - 1] == i as usize);
            } else {
                let k = choose|k: int| 0 <= k < before.len() && before[k] == i as usize;
                assert(m[k] == i as usize);
            }
        }
    }
}

/// Every session that passes the filter stands in one group and in no other.
pub proof fn law_groups_partition(
    groups: Seq<ProfileGroup>,
    profiles: Seq<SshProfileEntry>,
    filter: Seq<char>,
    i: int,
)
    requires
        profiles.len() <= usize::MAX,
        grouped(groups, profiles, filter, profiles.len()),
        0 <= i < profiles.len(),
        shown(profiles[i], filter),
    ensures
        exists|g: int|
            0 <= g < groups.len() && #[trigger] groups[g].members@.contains(i as usize) && forall|h: int|
                0 <= h < groups.len() && #[trigger] groups[h].members@.contains(i as usize) ==> h == g,
{
    let n = profiles.len();
    assert(has_group(groups, profiles[i].group@));
    let g = choose|g: int| 0 <= g < groups.len() && (#[trigger] groups[g]).name@ == profiles[i].group@;
    law_members_exact(profiles, filter, groups[g].name@, n);
    assert(groups[g].members@.contains(i as usize));
    assert forall|h: int|
        0 <= h < groups.len() && #[trigger] groups[h].members@.contains(i as usize) implies h == g by {
        law_members_exact(profiles, filter, groups[h].name@, n);
        let m = groups[h].members@;
        let k = choose|k: int| 0 <= k < m.len() && m[k] == i as usize;
        assert(profiles[m[k] as int].group@ == groups[h].name@);
        text::law_order_total(groups[g].name@, groups[h].name@);
        if h < g {
            assert(text::precedes(groups[h].name@, groups[g].name@));
        } else if g < h {
            assert(text::precedes(groups[g].name@, groups[h].name@));
        }
    }
}

fn holds_text(s: &str, wanted: &Vec<char>) -> (r: bool)
    ensures
        r == (wanted@.len() == 0 || text::contains_word(text::lowered(s@), wanted@)),
{
    let lower: String = text::lower_text(s);
    let chars: Vec<char> = text::to_chars(lower.as_str());
    wanted.len() == 0 || text::contains(&chars, wanted)
}

fn wanted_text(filter: &str) -> (r: Vec<char>)
    ensures
        r@ == text::lowered(filter@),
{
    let lower: String = text::lower_text(filter);
    text::to_chars(lower.as_str())
}

/// Whether a saved session passes the filter.
pub fn is_shown(p: &SshProfileEntry, filter: &str) -> (r: bool)
    ensures
        r == shown(*p, filter@),
{
    let wanted: Vec<char> = wanted_text(filter);
    holds_text(p.name.as_str(), &wanted) || holds_text(p.host.as_str(), &wanted) || holds_text(
        p.username.as_str(),
        &wanted,
    ) || holds_text(p.group.as_str(), &wanted)
}

/// How many saved sessions pass the filter.
pub fn visible_count(profiles: &Vec<SshProfileEntry>, filter: &str) -> (r: usize)
    ensures
        r == shown_count(profiles@, filter@, profiles@.len()),
{
    let mut count: usize = 0;
    let mut i: usize = 0;
    while i < profiles.len()
        invariant
            i <= profiles@.len(),
            count <= i,
            count == shown_count(profiles@, filter@, i as nat),
        decreases profiles@.len() - i,
    {
        if is_shown(&profiles[i], filter) {
            count = count + 1;
        }
        i = i + 1;
    }
    count
}

/// The place of the first group whose name does not stand before `name`.
fn place_of(groups: &Vec<ProfileGroup>, name: &Vec<char>) -> (r: usize)
    ensures
        r <= groups@.len(),
        forall|g: int| 0 <= g < r ==> text::precedes(#[trigger] groups@[g].name@, name@),
        r < groups@.len() ==> !text::precedes(groups@[r as int].name@, name@),
{
    let mut g: usize = 0;
    while g < groups.len()
        invariant
            g <= groups@.len(),
            forall|h: int| 0 <= h < g ==> text::precedes(#[trigger] groups@[h].name@, name@),
        decreases groups@.len() - g,
    {
        let chars: Vec<char> = text::to_chars(groups[g].name.as_str());
        if !text::is_before(&chars, name) {
            return g;
        }
        g = g + 1;
    }
    g
}

/// Adds the session at `i`, which passes the filter, to the groups of those before it.
fn add_member(
    groups: &mut Vec<ProfileGroup>,
    profiles: &Vec<SshProfileEntry>,
    Ghost(filter): Ghost<Seq<char>>,
    i: usize,
)
    requires
        i < profiles@.len(),
        shown(profiles@[i as int], filter),
        grouped(old(groups)@, profiles@, filter, i as nat),
    ensures
        grouped(final(groups)@, profiles@, filter, (i + 1) as nat),
{
    let ghost before = groups@;
    let ghost x = profiles@[i as int].group@;
    let name: Vec<char> = text::to_chars(profiles[i].group.as_str());
    let g: usize = place_of(groups, &name);
    let at: bool = g < groups.len() && text::is_text(&name, groups[g].name.as_str());
    proof {
        assert forall|h: int| g <= h < before.len() && (h > g || !at) implies text::precedes(
            x,
            #[trigger] before[h].name@,
        ) by {
            text::law_order_total(x, before[g as int].name@);
            if h > g {
                if before[g as int].name@ != x {
                    text::law_order_transitive(x, before[g as int].name@, before[h].name@);
                }
            }
        }
    }
    if at {
        let mut grp = groups.remove(g);
        grp.members.push(i);
        groups.insert(g, grp);
        proof {
            assert(groups@.len() == before.len());
            assert forall|h: int| 0 <= h < before.len() implies (#[trigger] groups@[h]).name@
                == before[h].name@ && (h != g ==> groups@[h] == before[h]) by {}
            assert forall|h: int| 0 <= h < groups@.len() implies (#[trigger] groups@[h]).members@
                == members_of(profiles@, filter, groups@[h].name@, (i + 1) as nat)
                && groups@[h].members@.len() > 0 by {
                assert(before[h].members@ == members_of(
                    profiles@,
                    filter,
                    before[h].name@,
                    i as nat,
                ));
                if h != g {
                    text::law_order_total(before[h].name@, x);
                }
            }
            assert forall|j: int, k: int| 0 <= j < k < groups@.len() implies text::precedes(
                #[trigger] groups@[j].name@,
                #[trigger] groups@[k].name@,
            ) by {
                assert(text::precedes(before[j].name@, before[k].name@));
            }
            assert forall|j: int|
                0 <= j < i + 1 && shown(#[trigger] profiles@[j], filter) implies has_group(
                groups@,
                profiles@[j].group@,
            ) by {
                if j < i {
                    assert(has_group(before, profiles@[j].group@));
                    let h = choose|h: int|
                        0 <= h < before.len() && (#[trigger] before[h]).name@
                            == profiles@[j].group@;
                    assert(groups@[h].name@ == before[h].name@);
                } else {
                    assert(groups@[g as int].name@ == x);
                }
            }
        }
    } else {
        let grp = ProfileGroup { name: profiles[i].group.clone(), members: vec![i] };
        groups.insert(g, grp);
        proof {
            assert(groups@[g as int].name@ == x);
            assert forall|j: int| 0 <= j < i && shown(#[trigger] profiles@[j], filter) implies
                profiles@[j].group@ != x by {
                assert(has_group(before, profiles@[j].group@));
                let h = choose|h: int|
                    0 <= h < before.len() && (#[trigger] before[h]).name@ == profiles@[j].group@;
                text::law_order_total(before[h].name@, x);
            }
            lemma_no_members(profiles@, filter, x, i as nat);
            assert forall|h: int| 0 <= h < groups@.len() implies (#[trigger] groups@[h]).members@
                == members_of(profiles@, filter, groups@[h].name@, (i + 1) as nat)
                && groups@[h].members@.len() > 0 by {
                if h == g {
                    assert(groups@[h].members@ =~= members_of(profiles@, filter, x, (i + 1) as nat));
                } else {
                    let old_h = if h < g {
                        h
                    } else {
                        h - 1
                    };
                    assert(groups@[h] == before[old_h]);
                    text::law_order_total(before[old_h].name@, x);
                }
            }
            assert forall|j: int, k: int| 0 <= j < k < groups@.len() implies text::precedes(
                #[trigger] groups@[j].name@,
                #[trigger] groups@[k].name@,
            ) by {
                let old_j = if j < g {
                    j
                } else {
                    j - 1
                };
                let old_k = if k < g {
                    k
                } else {
                    k - 1
                };
                if j != g {
                    assert(groups@[j] == before[old_j]);
                }
                if k != g {
                    assert(groups@[k] == before[old_k]);
                }
                if j != g && k != g {
                    assert(text::precedes(before[old_j].name@, before[old_k].name@));
                }
            }
            assert forall|j: int|
                0 <= j < i + 1 && shown(#[trigger] profiles@[j], filter) implies has_group(
                groups@,
                profiles@[j].group@,
            ) by {
                if j < i {
                    assert(has_group(before, profiles@[j].group@));
                    let h = choose|h: int|
                        0 <= h < before.len() && (#[trigger] before[h]).name@
                            == profiles@[j].group@;
                    let new_h = if h < g {
                        h
                    } else {
                        h + 1
                    };
                    assert(groups@[new_h] == before[h]);
                }
            }
        }
    }
}

/// The saved sessions that pass the filter, by group, in the order of the groups' names.
pub fn group_profiles(profiles: &Vec<SshProfileEntry>, filter: &str) -> (r: Vec<ProfileGroup>)
    ensures
        grouped(r@, profiles@, filter@, profiles@.len()),
{
    let mut groups: Vec<ProfileGroup> = Vec::new();
    let mut i: usize = 0;
    while i < profiles.len()
        invariant
            i <= profiles@.len(),
            grouped(groups@, profiles@, filter@, i as nat),
        decreases profiles@.len() - i,
    {
        if is_shown(&profiles[i], filter) {
            add_member(&mut groups, profiles, Ghost(filter@), i);
        } else {
            assert forall|g: int| 0 <= g < groups@.len() implies (#[trigger] groups@[g]).members@
                == members_of(profiles@, filter@, groups@[g].name@, (i + 1) as nat) by {}
        }
        i = i + 1;
    }
    groups
}

/// The names of all groups, in order, each once.
pub open spec fn are_group_names(names: Seq<String>, profiles: Seq<SshProfileEntry>) -> bool {
    &&& forall|i: int, j: int|
        0 <= i < j < names.len() ==> text::precedes(#[trigger] names[i]@, #[trigger] names[j]@)
    &&& forall|i: int| 0 <= i < names.len() ==> some_in(profiles, (#[trigger] names[i])@)
    &&& forall|i: int|
        0 <= i < profiles.len() ==> names_hold(names, (#[trigger] profiles[i]).group@)
}

/// One of the sessions belongs to the group.
pub open spec fn some_in(profiles: Seq<SshProfileEntry>, name: Seq<char>) -> bool {
    exists|i: int| 0 <= i < profiles.len() && (#[trigger] profiles[i]).group@ == name
}

/// One of the names is this one.
pub open spec fn names_hold(names: Seq<String>, name: Seq<char>) -> bool {
    exists|i: int| 0 <= i < names.len() && (#[trigger] names[i])@ == name
}

/// Adds a group name at its place, if it is not there yet.
fn add_name(names: &mut Vec<String>, group: &String)
    requires
        forall|i: int, j: int|
            0 <= i < j < old(names)@.len() ==> text::precedes(
                #[trigger] old(names)@[i]@,
                #[trigger] old(names)@[j]@,
            ),
    ensures
        forall|i: int, j: int|
            0 <= i < j < final(names)@.len() ==> text::precedes(
                #[trigger] final(names)@[i]@,
                #[trigger] final(names)@[j]@,
            ),
        names_hold(final(names)@, group@),
        forall|x: Seq<char>|
            names_hold(final(names)@, x) <==> (x == group@ || #[trigger] names_hold(old(names)@, x)),
{
    let ghost before = names@;
    let wanted: Vec<char> = text::to_chars(group.as_str());
    let mut g: usize = 0;
    while g < names.len()
        invariant
            g <= names@.len(),
            names@ == before,
            wanted@ == group@,
            forall|h: int| 0 <= h < g ==> text::precedes(#[trigger] names@[h]@, group@),
            before == old(names)@,
            forall|i: int, j: int|
                0 <= i < j < before.len() ==> text::precedes(
                    #[trigger] before[i]@,
                    #[trigger] before[j]@,
                ),
        ensures
            g <= names@.len(),
            names@ == before,
            forall|h: int| 0 <= h < g ==> text::precedes(#[trigger] names@[h]@, group@),
            g < names@.len() ==> text::precedes(group@, names@[g as int]@),
        decreases names@.len() - g,
    {
        let chars: Vec<char> = text::to_chars(names[g].as_str());
        if !text::is_before(&chars, &wanted) {
            proof {
                text::law_order_total(group@, names@[g as int]@);
            }
            if text::is_text(&wanted, names[g].as_str()) {
                assert(names@[g as int]@ == group@);
                assert(names_hold(names@, group@));
                return;
            }
            break;
        }
        g = g + 1;
    }
    names.insert(g, group.clone());
    proof {
        assert(names@[g as int]@ == group@);
        assert forall|i: int, j: int| 0 <= i < j < names@.len() implies text::precedes(
            #[trigger] names@[i]@,
            #[trigger] names@[j]@,
        ) by {
            let old_i = if i < g {
                i
            } else {
                i - 1
            };
            let old_j = if j < g {
                j
            } else {
                j - 1
            };
            if i != g {
                assert(names@[i] == before[old_i]);
            }
            if j != g {
                assert(names@[j] == before[old_j]);
            }
            if i == g && old_j > g {
                assert(text::precedes(before[g as int]@, before[old_j]@));
                text::law_order_transitive(group@, before[g as int]@, before[old_j]@);
            }
        }
        assert forall|x: Seq<char>| names_hold(names@, x) <==> (x == group@
            || #[trigger] names_hold(before, x)) by {
            if names_hold(names@, x) {
                let k = choose|k: int| 0 <= k < names@.len() && (#[trigger] names@[k])@ == x;
                if k < g {
                    assert(names@[k] == before[k]);
                } else if k > g {
                    assert(names@[k] == before[k - 1]);
                }
            }
            if names_hold(before, x) {
                let k = choose|k: int| 0 <= k < before.len() && (#[trigger] before[k])@ == x;
                if k < g {
                    assert(names@[k] == before[k]);
                } else {
                    assert(names@[k + 1] == before[k]);
                }
            }
        }
    }
}

/// The groups that the connection dialog offers: those of the saved sessions, in order.
pub fn group_names(profiles: &Vec<SshProfileEntry>) -> (r: Vec<String>)
    ensures
        are_group_names(r@, profiles@),
{
    let mut names: Vec<String> = Vec::new();
    let mut i: usize = 0;
    while i < profiles.len()
        invariant
            i <= profiles@.len(),
            forall|j: int, k: int|
                0 <= j < k < names@.len() ==> text::precedes(
                    #[trigger] names@[j]@,
                    #[trigger] names@[k]@,
                ),
            forall|x: Seq<char>|
                #[trigger] names_hold(names@, x) <==> some_in(profiles@.take(i as int), x),
        decreases profiles@.len() - i,
    {
        let ghost before = names@;
        add_name(&mut names, &profiles[i].group);
        proof {
            let more = profiles@.take(i + 1);
            let less = profiles@.take(i as int);
            assert forall|x: Seq<char>| #[trigger] names_hold(names@, x) <==> some_in(more, x) by {
                assert(names_hold(names@, x) <==> (x == profiles@[i as int].group@ || names_hold(
                    before,
                    x,
                )));
                if some_in(more, x) {
                    let k = choose|k: int| 0 <= k < more.len() && (#[trigger] more[k]).group@ == x;
                    if k < i {
                        assert(less[k].group@ == x);
                    }
                }
                if some_in(less, x) {
                    let k = choose|k: int| 0 <= k < less.len() && (#[trigger] less[k]).group@ == x;
                    assert(more[k].group@ == x);
                }
                if x == profiles@[i as int].group@ {
                    assert(more[i as int].group@ == x);
                }
            }
        }
        i = i + 1;
    }
    proof {
        assert(profiles@.take(profiles@.len() as int) =~= profiles@);
        assert forall|k: int| 0 <= k < names@.len() implies some_in(
            profiles@,
            (#[trigger] names@[k])@,
        ) by {
            assert(names_hold(names@, names@[k]@));
        }
    }
    names
}

/// The hash of a text that a group's colour goes by: its bytes as the digits of a number to the
/// base 31, as far as 32 bits hold it.
pub open spec fn hash31(bytes: Seq<u8>) -> nat
    decreases bytes.len(),
{
    if bytes.len() == 0 {
        0
    } else {
        (hash31(bytes.drop_last()) * 31 + bytes.last() as nat) % 0x1_0000_0000
    }
}

/// The colours of groups.
pub open spec fn group_palette(k: nat) -> [u8; 3] {
    if k == 1 {
        [177, 98, 134]
    } else if k == 2 {
        [214, 93, 14]
    } else if k == 3 {
        [104, 157, 106]
    } else if k == 4 {
        [211, 134, 155]
    } else if k == 5 {
        [152, 151, 26]
    } else if k == 6 {
        [204, 36, 29]
    } else {
        [69, 133, 136]
    }
}

/// Assign a deterministic color to a group name for the left-bar indicator.
pub fn group_color(name: &str) -> (r: [u8; 3])
    ensures
        r == group_palette(hash31(vstd::utf8::encode_utf8(name@)) % 8),
{
    let bytes = name.as_bytes();
    let mut h: u32 = 0;
    let mut i: usize = 0;
    while i < bytes.len()
        invariant
            i <= bytes@.len(),
            h == hash31(bytes@.take(i as int)),
        decreases bytes@.len() - i,
    {
        let wide: u64 = h as u64 * 31 + bytes[i] as u64;
        h = (wide % 0x1_0000_0000) as u32;
        assert(bytes@.take(i + 1).drop_last() =~= bytes@.take(i as int));
        i = i + 1;
    }
    assert(bytes@.take(i as int) =~= bytes@);
    let k: u32 = h % 8;
    if k == 1 {
        [177, 98, 134]
    } else if k == 2 {
        [214, 93, 14]
    } else if k == 3 {
        [104, 157, 106]
    } else if k == 4 {
        [211, 134, 155]
    } else if k == 5 {
        [152, 151, 26]
    } else if k == 6 {
        [204, 36, 29]
    } else {
        [69, 133, 136]
    }
}

/// A saved session is connected: an open SSH tab names its host.
pub open spec fn live(tabs: Seq<TabInfo>, host: Seq<char>) -> bool {
    exists|i: int|
        0 <= i < tabs.len() && (#[trigger] tabs[i]).is_ssh && text::contains_word(
            tabs[i].title@,
            host,
        ) && tabs[i].is_connected
}

/// Whether a saved session is connected.
pub fn is_live(tabs: &Vec<TabInfo>, host: &str) -> (r: bool)
    ensures
        r == live(tabs@, host@),
{
    let wanted: Vec<char> = text::to_chars(host);
    let mut i: usize = 0;
    while i < tabs.len()
        invariant
            i <= tabs@.len(),
            wanted@ == host@,
            forall|j: int|
                0 <= j < i ==> !((#[trigger] tabs@[j]).is_ssh && text::contains_word(
                    tabs@[j].title@,
                    host@,
                ) && tabs@[j].is_connected),
        decreases tabs@.len() - i,
    {
        let title: Vec<char> = text::to_chars(tabs[i].title.as_str());
        if tabs[i].is_ssh && text::contains(&title, &wanted) && tabs[i].is_connected {
            return true;
        }
        i = i + 1;
    }
    false
}

/// The mark of a way to log in.
pub open spec fn auth_mark(auth: Seq<char>) -> Seq<char> {
    if auth == "Key"@ {
        "[K]"@
    } else if auth == "Agent"@ {
        "[A]"@
    } else if auth == "Keyboard"@ {
        "[I]"@
    } else {
        "[P]"@
    }
}

/// The mark of a way to log in.
pub fn auth_tag(auth: &str) -> (r: &'static str)
    ensures
        r@ == auth_mark(auth@),
{
    let chars: Vec<char> = text::to_chars(auth);
    if text::is_text(&chars, "Key") {
        "[K]"
    } else if text::is_text(&chars, "Agent") {
        "[A]"
    } else if text::is_text(&chars, "Keyboard") {
        "[I]"
    } else {
        "[P]"
    }
}

/// The row of a saved session: how it logs in and its name.
pub fn profile_label(p: &SshProfileEntry) -> (r: String)
    ensures
        r@ == " "@ + auth_mark(p.auth_display@) + " "@ + p.name@,
{
    let mut out: String = " ".to_owned();
    out.append(auth_tag(p.auth_display.as_str()));
    out.append(" ");
    out.append(p.name.as_str());
    out
}

/// The address of a saved session, `user@host:port`.
pub fn profile_address(p: &SshProfileEntry) -> (r: String)
    ensures
        r@ == p.username@ + "@"@ + p.host@ + ":"@ + number::digits(p.port as nat),
{
    let mut out: String = p.username.clone();
    out.append("@");
    out.append(p.host.as_str());
    out.append(":");
    number::push_digits(&mut out, p.port as u64);
    out
}

/// How a saved session logs in and where it belongs, in words.
pub fn profile_note(p: &SshProfileEntry) -> (r: String)
    ensures
        r@ == "Auth: "@ + p.auth_display@ + " | Group: "@ + p.group@,
{
    let mut out: String = "Auth: ".to_owned();
    out.append(p.auth_display.as_str());
    out.append(" | Group: ");
    out.append(p.group.as_str());
    out
}

/// The header of a group: its name and the number of its sessions.
pub fn group_header(g: &ProfileGroup) -> (r: String)
    ensures
        r@ == g.name@ + "  ("@ + number::digits(g.members@.len()) + ")"@,
{
    let mut out: String = g.name.clone();
    out.append("  (");
    number::push_digits(&mut out, g.members.len() as u64);
    out.append(")");
    out
}

/// The foot of the panel: how many sessions are saved and how many tabs are open.
pub fn footer(profiles: &Vec<SshProfileEntry>, tabs: &Vec<TabInfo>) -> (r: String)
    ensures
        r@ == number::digits(profiles@.len()) + " saved  |  "@ + number::digits(tabs@.len())
            + " active"@,
{
    let mut out: String = String::new();
    number::push_digits(&mut out, profiles.len() as u64);
    out.append(" saved  |  ");
    number::push_digits(&mut out, tabs.len() as u64);
    out.append(" active");
    assert(out@ =~= number::digits(profiles@.len()) + " saved  |  "@ + number::digits(tabs@.len())
        + " active"@);
    out
}

/// What the filter bar says: how many sessions match, in red where none does; nothing without a
/// filter.
pub fn filter_badge(profiles: &Vec<SshProfileEntry>, filter: &str) -> (r: Option<(String, [u8; 3])>)
    ensures
        match r {
            Some((t, c)) => {
                let n = shown_count(profiles@, filter@, profiles@.len());
                &&& text::lowered(filter@).len() > 0
                &&& t@ == number::digits(n) + " 项匹配"@
                &&& c == if n > 0 {
                    [250u8, 189, 47]
                } else {
                    [204u8, 36, 29]
                }
            },
            None => text::lowered(filter@).len() == 0,
        },
{
    let wanted: Vec<char> = wanted_text(filter);
    if wanted.len() == 0 {
        return None;
    }
    let n: usize = visible_count(profiles, filter);
    let mut out: String = String::new();
    number::push_digits(&mut out, n as u64);
    out.append(" 项匹配");
    assert(out@ =~= number::digits(n as nat) + " 项匹配"@);
    if n > 0 {
        Some((out, [250, 189, 47]))
    } else {
        Some((out, [204, 36, 29]))
    }
}

/// The kind of a tab in words.
pub open spec fn kind(tab: TabInfo) -> Seq<char> {
    if tab.is_ssh {
        "SSH"@
    } else {
        "Shell"@
    }
}

/// A row of the list of open tabs.
#[derive(Debug)]
pub struct TabRow {
    /// The tab's place.
    pub index: usize,
    pub label: String,
    /// What hovering shows under the title.
    pub hover: String,
    pub dot: [u8; 3],
    pub selected: bool,
}

/// A row is the one of the tab at `i`.
pub open spec fn is_row(row: TabRow, tabs: Seq<TabInfo>, i: int) -> bool {
    let tab = tabs[i];
    &&& row.index == i
    &&& row.label@ == " "@ + tab.title@ + "  ("@ + kind(tab) + ")"@
    &&& row.hover@ == kind(tab) + "  |  "@ + number::digits(tab.cols as nat) + "x"@
        + number::digits(tab.rows as nat)
    &&& row.dot == if tab.is_ssh {
        if tab.is_connected {
            [142u8, 192, 124]
        } else {
            [204u8, 36, 29]
        }
    } else {
        [69u8, 133, 136]
    }
    &&& row.selected == tab.is_active
}

/// The places, in order, of those of the first `n` tabs whose title holds the filter text.
pub open spec fn listed(tabs: Seq<TabInfo>, filter: Seq<char>, n: nat) -> Seq<int>
    decreases n,
{
    if n == 0 {
        Seq::empty()
    } else {
        let before = listed(tabs, filter, (n - 1) as nat);
        if holds(tabs[n - 1].title@, filter) {
            before.push(n - 1)
        } else {
            before
        }
    }
}

fn tab_row(tabs: &Vec<TabInfo>, i: usize) -> (r: TabRow)
    requires
        i < tabs@.len(),
    ensures
        is_row(r, tabs@, i as int),
{
    let tab = &tabs[i];
    let name = if tab.is_ssh {
        "SSH"
    } else {
        "Shell"
    };
    let mut label: String = " ".to_owned();
    label.append(tab.title.as_str());
    label.append("  (");
    label.append(name);
    label.append(")");
    let mut hover: String = name.to_owned();
    hover.append("  |  ");
    number::push_digits(&mut hover, tab.cols as u64);
    hover.append("x");
    number::push_digits(&mut hover, tab.rows as u64);
    let dot: [u8; 3] = if tab.is_ssh {
        if tab.is_connected {
            [142, 192, 124]
        } else {
            [204, 36, 29]
        }
    } else {
        [69, 133, 136]
    };
    TabRow { index: i, label, hover, dot, selected: tab.is_active }
}

/// The rows of the open tabs whose title holds the filter text.
pub fn tab_rows(tabs: &Vec<TabInfo>, filter: &str) -> (r: Vec<TabRow>)
    ensures
        r@.len() == listed(tabs@, filter@, tabs@.len()).len(),
        forall|k: int|
            0 <= k < r@.len() ==> is_row(
                #[trigger] r@[k],
                tabs@,
                listed(tabs@, filter@, tabs@.len())[k],
            ),
{
    let wanted: Vec<char> = wanted_text(filter);
    let mut out: Vec<TabRow> = Vec::new();
    let mut i: usize = 0;
    while i < tabs.len()
        invariant
            i <= tabs@.len(),
            wanted@ == text::lowered(filter@),
            out@.len() == listed(tabs@, filter@, i as nat).len(),
            forall|k: int|
                0 <= k < out@.len() ==> is_row(
                    #[trigger] out@[k],
                    tabs@,
                    listed(tabs@, filter@, i as nat)[k],
                ),
        decreases tabs@.len() - i,
    {
        if holds_text(tabs[i].title.as_str(), &wanted) {
            out.push(tab_row(tabs, i));
        }
        i = i + 1;
    }
    out
}

/// What a user does to a saved session's row.
#[derive(Debug, Clone, Copy, PartialEq, Eq, Structural)]
pub enum ProfileEvent {
    Click,
    DoubleClick,
    Connect,
    Edit,
    Delete,
}

/// What an event on the row of the session at `index` asks for, if it asks anything.
pub open spec fn profile_asks(event: ProfileEvent, index: usize) -> Option<GuiAction> {
    match event {
        ProfileEvent::Click => None,
        ProfileEvent::DoubleClick | ProfileEvent::Connect => Some(
            GuiAction::ConnectSavedProfile(index),
        ),
        ProfileEvent::Edit => Some(GuiAction::EditSavedProfile(index)),
        ProfileEvent::Delete => Some(GuiAction::DeleteSavedProfile(index)),
    }
}

/// Handles an event on the row of the session at `index`: a click selects it, the others ask for
/// something. The action that comes back replaces one that an earlier row of the group asked for.
pub fn profile_event(
    selected: &mut Option<usize>,
    event: ProfileEvent,
    index: usize,
) -> (r: Option<GuiAction>)
    ensures
        r == profile_asks(event, index),
        *final(selected) == if event is Click {
            Some(index)
        } else {
            *old(selected)
        },
{
    match event {
        ProfileEvent::Click => {
            *selected = Some(index);
            None
        },
        ProfileEvent::DoubleClick => Some(GuiAction::ConnectSavedProfile(index)),
        ProfileEvent::Connect => Some(GuiAction::ConnectSavedProfile(index)),
        ProfileEvent::Edit => Some(GuiAction::EditSavedProfile(index)),
        ProfileEvent::Delete => Some(GuiAction::DeleteSavedProfile(index)),
    }
}

/// Without a filter every saved session counts.
pub proof fn law_no_filter_shows_all(profiles: Seq<SshProfileEntry>, filter: Seq<char>, n: nat)
    requires
        text::lowered(filter).len() == 0,
        n <= profiles.len(),
    ensures
        shown_count(profiles, filter, n) == n,
    decreases n,
{
    if n > 0 {
        law_no_filter_shows_all(profiles, filter, (n - 1) as nat);
    }
}

/// Of sessions in ASCII a filter finds those whose name, host, user or group holds it, letter for
/// letter but for case, and no other.
pub proof fn law_filter_finds_sessions(p: SshProfileEntry, filter: Seq<char>, i: int)
    requires
        text::plain(filter),
        filter.len() > 0,
        text::plain(p.name@),
        text::plain(p.host@),
        text::plain(p.username@),
        text::plain(p.group@),
        0 <= i,
    ensures
        entry_has_at(p, filter, i) ==> shown(p, filter),
        shown(p, filter) ==> exists|k: int| #[trigger] entry_has_at(p, filter, k),
{
    lemma_holds_at(p.name@, filter, i);
    lemma_holds_at(p.host@, filter, i);
    lemma_holds_at(p.username@, filter, i);
    lemma_holds_at(p.group@, filter, i);
    if shown(p, filter) {
        let s = if holds(p.name@, filter) {
            p.name@
        } else if holds(p.host@, filter) {
            p.host@
        } else if holds(p.username@, filter) {
            p.username@
        } else {
            p.group@
        };
        let k = choose|k: int| has_at(s, filter, k);
        assert(has_at(s, filter, k));
        assert(entry_has_at(p, filter, k));
    }
}

/// The filter stands in the name, the host, the user or the group from character `i` on.
pub open spec fn entry_has_at(p: SshProfileEntry, filter: Seq<char>, i: int) -> bool {
    has_at(p.name@, filter, i) || has_at(p.host@, filter, i) || has_at(p.username@, filter, i)
        || has_at(p.group@, filter, i)
}

/// The filter stands in a text from character `i` on, letter for letter but for case.
pub open spec fn has_at(s: Seq<char>, filter: Seq<char>, i: int) -> bool {
    0 <= i && i + filter.len() <= s.len() && text::small_letters(s.subrange(i, i + filter.len()))
        == text::small_letters(filter)
}

proof fn lemma_holds_at(s: Seq<char>, filter: Seq<char>, i: int)
    requires
        text::plain(filter),
        filter.len() > 0,
        text::plain(s),
    ensures
        has_at(s, filter, i) ==> holds(s, filter),
        holds(s, filter) ==> exists|k: int| has_at(s, filter, k),
{
    let n = filter.len() as int;
    let low = text::small_letters(s);
    let wanted = text::small_letters(filter);
    assert forall|k: int| 0 <= k && k + n <= s.len() implies text::word_at(low, wanted, k)
        == #[trigger] has_at(s, filter, k) by {
        assert(low.subrange(k, k + n) =~= text::small_letters(s.subrange(k, k + n)));
    }
    if has_at(s, filter, i) {
        assert(text::word_at(low, wanted, i));
    }
    if holds(s, filter) {
        let k = choose|k: int| #[trigger] text::word_at(low, wanted, k);
        assert(has_at(s, filter, k));
    }
}

} // verus!
