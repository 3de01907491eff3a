//! Recovery after a crash: the directory tree is walked from the root
//! through live entries other than `.` and `..`; a directory reached that
//! has no page, or not exactly one `.` and one `..` entry, makes recovery
//! refuse; otherwise inodes in use that the walk did not reach are zeroed.
use crate::defs::{Error, FileName, InodeNum, InodeType, PageNum, MAX_FILENAME_LEN, NUM_INODES, ROOT_INO};
use crate::fs::SbInfo;
use crate::mount::{all_owned_dir, dir_entries, entries_of, lemma_owned_pages, owned_dir_pages, owns_dir_page, page_lists_ok, scan_pages};
use crate::volatile::DentryInfo;
use crate::page::DirPageWrapper;
use crate::pm::{zero_inode_spec, HayleyFsInode, PmDevice, PmView};
use crate::sorted::SortedMap;
use vstd::prelude::*;

verus! {

/// The stored form of a name of `n` dots.
pub open spec fn dots(n: int) -> Seq<u8> {
    Seq::new(MAX_FILENAME_LEN as nat, |i: int| if i < n { 46u8 } else { 0u8 })
}

/// Entry `d` is named `.` or `..`.
pub open spec fn is_dot_entry(d: DentryInfo) -> bool {
    d.name.bytes@ == dots(1) || d.name.bytes@ == dots(2)
}

/// The number of entries of `es` named by `n` dots.
pub open spec fn count_named(es: Seq<DentryInfo>, n: int) -> nat
    decreases es.len(),
{
    if es.len() == 0 {
        0
    } else {
        count_named(es.drop_last(), n) + (if es.last().name.bytes@ == dots(n) { 1nat } else { 0nat })
    }
}

/// `n`, or 2 when it is larger.
pub open spec fn cap2(n: nat) -> nat {
    if n < 2 {
        n
    } else {
        2
    }
}

/// The inode numbers the entries of `es` other than `.` and `..` name, in
/// order.
pub open spec fn child_inos(es: Seq<DentryInfo>) -> Seq<InodeNum>
    decreases es.len(),
{
    if es.len() == 0 {
        Seq::empty()
    } else {
        child_inos(es.drop_last()) + (if is_dot_entry(es.last()) {
            Seq::empty()
        } else {
            seq![es.last().ino]
        })
    }
}

/// Inode `x` is a directory inode of the inode table.
pub open spec fn is_dir_inode(v: PmView, x: InodeNum) -> bool {
    x < NUM_INODES && v.inodes[x as int].inode_type == InodeType::DIR
}

/// Directory `x` has a live entry other than `.` and `..` naming `y`.
pub open spec fn tree_child(v: PmView, x: InodeNum, y: InodeNum) -> bool {
    is_dir_inode(v, x) && child_inos(dir_entries(v, x)).contains(y)
}

/// Inode `y` is reached from the root through at most `n` entries of
/// directories other than `.` and `..`.
pub open spec fn tree_reach_n(v: PmView, n: nat, y: InodeNum) -> bool
    decreases n, 0nat,
{
    if n == 0 {
        y == ROOT_INO
    } else {
        tree_reach_n(v, (n - 1) as nat, y) || child_of_tree_reached(v, (n - 1) as nat, y)
    }
}

/// Inode `y` is named by an entry other than `.` and `..` of a directory
/// reached through at most `n` such entries.
pub open spec fn child_of_tree_reached(v: PmView, n: nat, y: InodeNum) -> bool
    decreases n, 1nat,
{
    exists|x: InodeNum| tree_reach_n(v, n, x) && #[trigger] tree_child(v, x, y)
}

/// Inode `y` is reached from the root through entries of directories other
/// than `.` and `..`.
pub open spec fn tree_reachable(v: PmView, y: InodeNum) -> bool {
    exists|n: nat| #[trigger] tree_reach_n(v, n, y)
}

/// Directory `x` has a page, and exactly one `.` and one `..` entry.
pub open spec fn dir_well_formed(v: PmView, x: InodeNum) -> bool {
    &&& owned_dir_pages(v, x, v.descs.len() as int).len() > 0
    &&& count_named(dir_entries(v, x), 1) == 1
    &&& count_named(dir_entries(v, x), 2) == 1
}

/// Every directory the walk from the root reaches is well formed.
pub open spec fn tree_ok(v: PmView) -> bool {
    forall|x: InodeNum| #[trigger] tree_reachable(v, x) && is_dir_inode(v, x) ==> dir_well_formed(v, x)
}

proof fn lemma_tree_reach_step(v: PmView, x: InodeNum, y: InodeNum)
    requires
        tree_reachable(v, x),
        tree_child(v, x, y),
    ensures
        tree_reachable(v, y),
{
    let m = choose|m: nat| #[trigger] tree_reach_n(v, m, x);
    assert(tree_reach_n(v, m, x));
    assert(child_of_tree_reached(v, m, y));
    let m1 = (m + 1) as nat;
    assert((m1 - 1) as nat == m);
    assert(tree_reach_n(v, m1, y));
}

proof fn lemma_tree_closed(v: PmView, done: Set<InodeNum>, n: nat, y: InodeNum)
    requires
        done.contains(ROOT_INO),
        forall|x: InodeNum, z: InodeNum| #[trigger] done.contains(x) && #[trigger] tree_child(v, x, z) ==> done.contains(z),
        tree_reach_n(v, n, y),
    ensures
        done.contains(y),
    decreases n,
{
    if n > 0 {
        let n1 = (n - 1) as nat;
        if tree_reach_n(v, n1, y) {
            lemma_tree_closed(v, done, n1, y);
        } else {
            assert(child_of_tree_reached(v, n1, y));
            let x = choose|x: InodeNum| tree_reach_n(v, n1, x) && #[trigger] tree_child(v, x, y);
            lemma_tree_closed(v, done, n1, x);
        }
    }
}

/// An entry counts as `.` or `..` exactly when its stored name is one dot,
/// or two dots, followed only by zeros: a longer name that merely begins
/// with a dot (`.profile`, `...`) does not.
pub proof fn lemma_dot_entry_exact(d: DentryInfo)
    ensures
        is_dot_entry(d) <==> (d.name.bytes@[0] == 46u8 && (d.name.bytes@[1] == 0u8 || d.name.bytes@[1] == 46u8)
            && (forall|j: int| 2 <= j < MAX_FILENAME_LEN ==> #[trigger] d.name.bytes@[j] == 0u8)),
{
    broadcast use vstd::array::group_array_axioms;

    let b = d.name.bytes@;
    assert(b.len() == MAX_FILENAME_LEN);
    if b == dots(1) {
        assert(b[0] == dots(1)[0] && b[1] == dots(1)[1]);
        assert forall|j: int| 2 <= j < MAX_FILENAME_LEN implies #[trigger] b[j] == 0u8 by {
            assert(b[j] == dots(1)[j]);
        }
    }
    if b == dots(2) {
        assert(b[0] == dots(2)[0] && b[1] == dots(2)[1]);
        assert forall|j: int| 2 <= j < MAX_FILENAME_LEN implies #[trigger] b[j] == 0u8 by {
            assert(b[j] == dots(2)[j]);
        }
    }
    if b[0] == 46u8 && (b[1] == 0u8 || b[1] == 46u8) && (forall|j: int| 2 <= j < MAX_FILENAME_LEN ==> #[trigger] b[j] == 0u8) {
        if b[1] == 0u8 {
            assert(b =~= dots(1));
        } else {
            assert(b =~= dots(2));
        }
    }
}

proof fn lemma_child_inos_has(es: Seq<DentryInfo>, i: int)
    requires
        0 <= i < es.len(),
        !is_dot_entry(es[i]),
    ensures
        child_inos(es).contains(es[i].ino),
    decreases es.len(),
{
    let prev = child_inos(es.drop_last());
    if i == es.len() - 1 {
        assert(child_inos(es) == prev + seq![es.last().ino]);
        assert(child_inos(es)[prev.len() as int] == es[i].ino);
    } else {
        lemma_child_inos_has(es.drop_last(), i);
        assert(es.drop_last()[i] == es[i]);
        let k = choose|k: int| 0 <= k < prev.len() && prev[k] == es[i].ino;
        assert(child_inos(es)[k] == prev[k]);
    }
}

/// Recovery keeps what a live entry names: in a directory the walk from
/// the root reaches, an entry whose stored name is neither exactly `.` nor
/// exactly `..` names an inode the walk reaches too, whatever the name's
/// first byte, so a successful `recover` leaves that inode unchanged.
pub proof fn lemma_named_entry_reached(v: PmView, x: InodeNum, i: int)
    requires
        tree_reachable(v, x),
        is_dir_inode(v, x),
        0 <= i < dir_entries(v, x).len(),
        !(dir_entries(v, x)[i].name.bytes@[0] == 46u8 && (dir_entries(v, x)[i].name.bytes@[1] == 0u8
            || dir_entries(v, x)[i].name.bytes@[1] == 46u8) && (forall|j: int|
            2 <= j < MAX_FILENAME_LEN ==> #[trigger] dir_entries(v, x)[i].name.bytes@[j] == 0u8)),
    ensures
        tree_child(v, x, dir_entries(v, x)[i].ino),
        tree_reachable(v, dir_entries(v, x)[i].ino),
{
    let d = dir_entries(v, x)[i];
    lemma_dot_entry_exact(d);
    lemma_child_inos_has(dir_entries(v, x), i);
    lemma_tree_reach_step(v, x, d.ino);
}

/// Whether `name` is the name of `n` dots.
fn is_dots(name: &FileName, n: usize) -> (r: bool)
    requires
        n <= 2,
    ensures
        r == (name.bytes@ == dots(n as int)),
{
    let mut i: usize = 0;
    while i < MAX_FILENAME_LEN
        invariant
            n <= 2,
            i <= MAX_FILENAME_LEN,
            name.bytes@.len() == MAX_FILENAME_LEN,
            forall|j: int| 0 <= j < i ==> #[trigger] name.bytes@[j] == dots(n as int)[j],
        decreases MAX_FILENAME_LEN - i,
    {
        let expected: u8 = if i < n { 46 } else { 0 };
        if name.bytes[i] != expected {
            proof {
                assert(name.bytes@[i as int] != dots(n as int)[i as int]);
            }
            return false;
        }
        i = i + 1;
    }
    proof {
        assert(name.bytes@ =~= dots(n as int));
    }
    true
}

/// Appends to `queue` the inodes named by the live entries other than `.`
/// and `..` of the directory pages `pages` of inode `x`, page by page, in
/// slot order, and counts (up to two) the `.` and the `..` entries.
fn queue_tree_children(dev: &PmDevice, x: InodeNum, pages: &Vec<PageNum>, queue: &mut Vec<InodeNum>) -> (r: (u64, u64))
    requires
        dev.wf(),
        all_owned_dir(dev@, x, pages@),
    ensures
        final(queue)@ == old(queue)@ + child_inos(entries_of(dev@, pages@)),
        r.0 == cap2(count_named(entries_of(dev@, pages@), 1)),
        r.1 == cap2(count_named(entries_of(dev@, pages@), 2)),
{
    let ghost v = dev@;
    let ghost q0 = queue@;
    let mut one: u64 = 0;
    let mut two: u64 = 0;
    let mut j: usize = 0;
    while j < pages.len()
        invariant
            dev.wf(),
            v == dev@,
            all_owned_dir(v, x, pages@),
            j <= pages@.len(),
            queue@ == q0 + child_inos(entries_of(v, pages@.take(j as int))),
            one == cap2(count_named(entries_of(v, pages@.take(j as int)), 1)),
            two == cap2(count_named(entries_of(v, pages@.take(j as int)), 2)),
        decreases pages@.len() - j,
    {
        let page = pages[j];
        proof {
            assert(owns_dir_page(v, x, pages@[j as int] as int));
        }
        let dir_page_wrapper = match DirPageWrapper::from_page_no(dev, page) {
            Ok(w) => w,
            Err(_) => vstd::pervasive::unreached(),
        };
        let live_dentries = match dir_page_wrapper.get_live_dentry_info(dev) {
            Ok(l) => l,
            Err(_) => vstd::pervasive::unreached(),
        };
        let ghost ej = entries_of(v, pages@.take(j as int));
        let mut k: usize = 0;
        while k < live_dentries.len()
            invariant
                k <= live_dentries@.len(),
                queue@ == q0 + child_inos(ej + live_dentries@.take(k as int)),
                one == cap2(count_named(ej + live_dentries@.take(k as int), 1)),
                two == cap2(count_named(ej + live_dentries@.take(k as int), 2)),
            decreases live_dentries@.len() - k,
        {
            let d = live_dentries[k];
            let name = d.get_name();
            let is_one = is_dots(&name, 1);
            let is_two = is_dots(&name, 2);
            if is_one && one < 2 {
                one = one + 1;
            }
            if is_two && two < 2 {
                two = two + 1;
            }
            if !is_one && !is_two {
                queue.push(d.get_ino());
            }
            proof {
                let es = ej + live_dentries@.take(k + 1);
                assert(es.drop_last() =~= ej + live_dentries@.take(k as int));
                assert(es.last() == d);
                if is_one || is_two {
                    assert(queue@ =~= q0 + child_inos(es));
                } else {
                    assert(queue@ =~= q0 + child_inos(es));
                }
            }
            k = k + 1;
        }
        proof {
            assert(live_dentries@.take(k as int) =~= live_dentries@);
            let t = pages@.take(j + 1);
            assert(t.drop_last() =~= pages@.take(j as int));
            assert(t.last() == page);
            assert(entries_of(v, t) == ej + live_dentries@);
        }
        j = j + 1;
    }
    proof {
        assert(pages@.take(j as int) =~= pages@);
    }
    (one, two)
}

/// Walks the directory tree from the root through live entries other than
/// `.` and `..`, visiting each inode once: the inodes reached, or `EPERM`
/// when a directory reached has no page, or not exactly one `.` and one
/// `..` entry; `init_dir_pages` lists the directory pages of each inode.
fn walk_from_root(dev: &PmDevice, init_dir_pages: &SortedMap<InodeNum, Vec<PageNum>>) -> (r: Result<SortedMap<InodeNum, ()>, Error>)
    requires
        dev.wf(),
        page_lists_ok(*init_dir_pages, dev@, dev@.descs.len() as int, true),
    ensures
        match r {
            Ok(m) => {
                &&& m.wf()
                &&& tree_ok(dev@)
                &&& forall|y: InodeNum| #[trigger] m.view().contains_key(y) == tree_reachable(dev@, y)
            },
            Err(e) => e == Error::EPERM && !tree_ok(dev@),
        },
{
    let ghost v = dev@;
    let ghost n = v.descs.len() as int;
    let mut queue: Vec<InodeNum> = Vec::new();
    queue.push(ROOT_INO);
    let mut processed: SortedMap<InodeNum, ()> = SortedMap::new();
    proof {
        assert(tree_reach_n(v, 0, ROOT_INO));
        assert(queue@[0] == ROOT_INO);
    }
    while queue.len() > 0
        invariant
            dev.wf(),
            v == dev@,
            n == v.descs.len(),
            page_lists_ok(*init_dir_pages, v, n, true),
            processed.wf(),
            forall|y: InodeNum| #[trigger] processed.view().contains_key(y) ==> tree_reachable(v, y),
            forall|y: InodeNum| #[trigger] processed.view().contains_key(y) && is_dir_inode(v, y) ==> dir_well_formed(v, y),
            forall|j: int| 0 <= j < queue@.len() ==> tree_reachable(v, #[trigger] queue@[j]),
            forall|x: InodeNum, z: InodeNum|
                #[trigger] processed.view().contains_key(x) && #[trigger] tree_child(v, x, z) ==> processed.view().contains_key(z)
                    || queue@.contains(z),
            processed.view().contains_key(ROOT_INO) || queue@.contains(ROOT_INO),
        decreases 0x1_0000_0000_0000_0000 - processed.view().dom().len(), queue@.len(),
    {
        let ghost q0 = queue@;
        let live_inode = queue.remove(0);
        proof {
            assert forall|z: InodeNum| q0.contains(z) && z != live_inode implies queue@.contains(z) by {
                let j = choose|j: int| 0 <= j < q0.len() && q0[j] == z;
                assert(queue@[j - 1] == z);
            }
            assert(tree_reachable(v, q0[0]));
        }
        if processed.contains_key(&live_inode) {
            proof {
                assert forall|x: InodeNum, z: InodeNum|
                    #[trigger] processed.view().contains_key(x) && #[trigger] tree_child(v, x, z) implies processed.view().contains_key(z)
                        || queue@.contains(z) by {
                    if !processed.view().contains_key(z) {
                        assert(q0.contains(z));
                    }
                }
                if !processed.view().contains_key(ROOT_INO) {
                    assert(q0.contains(ROOT_INO));
                }
            }
            continue;
        }
        let ghost qa = queue@;
        proof {
            lemma_owned_pages(v, live_inode, n);
        }
        let is_dir = live_inode < NUM_INODES && dev.inode(live_inode).get_type() == InodeType::DIR;
        if is_dir {
            let owned_dir = init_dir_pages.get(&live_inode);
            match owned_dir {
                None => {
                    proof {
                        assert(!dir_well_formed(v, live_inode));
                    }
                    return Err(Error::EPERM);
                },
                Some(pages) => {
                    let (one, two) = queue_tree_children(dev, live_inode, pages, &mut queue);
                    if one != 1 || two != 1 {
                        proof {
                            assert(!dir_well_formed(v, live_inode));
                        }
                        return Err(Error::EPERM);
                    }
                    proof {
                        assert(init_dir_pages.view().contains_key(live_inode));
                        assert(owned_dir_pages(v, live_inode, n).len() > 0);
                        assert(dir_well_formed(v, live_inode));
                    }
                },
            }
        }
        proof {
            if !is_dir {
                assert forall|z: InodeNum| !tree_child(v, live_inode, z) by {}
            }
            assert(is_dir ==> queue@ == qa + child_inos(dir_entries(v, live_inode)));
            assert(!is_dir ==> queue@ == qa);
        }
        let ghost pd0 = processed.view().dom();
        proof {
            processed.lemma_wf();
        }
        processed.insert(live_inode, ());
        proof {
            assert(processed.view().dom() =~= pd0.insert(live_inode));
            processed.lemma_wf();
            crate::allocator::lemma_range_set_len(0, 0x1_0000_0000_0000_0000);
            assert(processed.view().dom().subset_of(crate::allocator::range_set(0, 0x1_0000_0000_0000_0000)));
            vstd::set_lib::lemma_len_subset(processed.view().dom(), crate::allocator::range_set(0, 0x1_0000_0000_0000_0000));
            let cs = child_inos(dir_entries(v, live_inode));
            assert forall|j: int| 0 <= j < queue@.len() implies tree_reachable(v, #[trigger] queue@[j]) by {
                if j >= qa.len() {
                    let i = j - qa.len();
                    assert(queue@[j] == cs[i]);
                    assert(cs.contains(cs[i]));
                    assert(tree_child(v, live_inode, cs[i]));
                    lemma_tree_reach_step(v, live_inode, cs[i]);
                } else {
                    assert(queue@[j] == qa[j]);
                }
            }
            assert forall|x: InodeNum, z: InodeNum|
                #[trigger] processed.view().contains_key(x) && #[trigger] tree_child(v, x, z) implies processed.view().contains_key(z)
                    || queue@.contains(z) by {
                if x == live_inode {
                    let i = choose|i: int| 0 <= i < cs.len() && cs[i] == z;
                    assert(queue@[qa.len() + i] == z);
                } else {
                    if !processed.view().contains_key(z) && z != live_inode {
                        assert(q0.contains(z));
                        assert(qa.contains(z));
                        let j = choose|j: int| 0 <= j < qa.len() && qa[j] == z;
                        assert(queue@[j] == z);
                    }
                }
            }
            if !processed.view().contains_key(ROOT_INO) {
                assert(qa.contains(ROOT_INO));
                let j = choose|j: int| 0 <= j < qa.len() && qa[j] == ROOT_INO;
                assert(queue@[j] == ROOT_INO);
            }
        }
    }
    proof {
        let done = processed.view().dom();
        assert forall|y: InodeNum| #[trigger] processed.view().contains_key(y) == tree_reachable(v, y) by {
            if tree_reachable(v, y) {
                let m = choose|m: nat| #[trigger] tree_reach_n(v, m, y);
                lemma_tree_closed(v, done, m, y);
            }
        }
        assert forall|x: InodeNum| #[trigger] tree_reachable(v, x) && is_dir_inode(v, x) implies dir_well_formed(v, x) by {
            assert(processed.view().contains_key(x));
        }
    }
    Ok(processed)
}

/// Recovers the file system on the device after a crash: walks the
/// directory tree from the root through live entries other than `.` and
/// `..`, refusing with `EPERM` when a directory reached has no page, or
/// not exactly one `.` and one `..` entry; otherwise zeroes every inode in
/// use that the walk did not reach.  Nothing else on the device or in
/// memory changes, and nothing at all on a refusal.
pub fn recover(sbi: &mut SbInfo) -> (r: Result<(), Error>)
    requires
        old(sbi).wf(),
    ensures
        final(sbi).wf(),
        match r {
            Ok(()) => {
                &&& tree_ok(old(sbi).dev@)
                &&& *final(sbi) == (SbInfo { dev: final(sbi).dev, ..*old(sbi) })
                &&& final(sbi).dev@ == (PmView { inodes: final(sbi).dev@.inodes, ..old(sbi).dev@ })
                &&& final(sbi).dev@.inodes.len() == old(sbi).dev@.inodes.len()
                &&& forall|i: int|
                    0 <= i < NUM_INODES ==> #[trigger] final(sbi).dev@.inodes[i] == (if tree_reachable(
                        old(sbi).dev@,
                        i as InodeNum,
                    ) {
                        old(sbi).dev@.inodes[i]
                    } else {
                        zero_inode_spec()
                    })
            },
            Err(e) => e == Error::EPERM && !tree_ok(old(sbi).dev@) && *final(sbi) == *old(sbi),
        },
{
    let ghost s0 = *sbi;
    let ghost v = s0.dev@;
    let saved = sbi.blocks_in_use;
    sbi.blocks_in_use = 0;
    let (_used_pages, init_dir_pages, _init_data_pages) = scan_pages(sbi);
    sbi.blocks_in_use = saved;
    proof {
        assert(*sbi == s0);
    }
    let valid = walk_from_root(&sbi.dev, &init_dir_pages)?;
    let mut ino: u64 = 0;
    while ino < NUM_INODES
        invariant
            sbi.wf(),
            *sbi == (SbInfo { dev: sbi.dev, ..s0 }),
            sbi.dev@ == (PmView { inodes: sbi.dev@.inodes, ..v }),
            sbi.dev@.inodes.len() == NUM_INODES,
            v.inodes.len() == NUM_INODES,
            ino <= NUM_INODES,
            valid.wf(),
            forall|y: InodeNum| #[trigger] valid.view().contains_key(y) == tree_reachable(v, y),
            forall|i: int|
                0 <= i < NUM_INODES ==> #[trigger] sbi.dev@.inodes[i] == (if i < ino && !tree_reachable(v, i as InodeNum) {
                    zero_inode_spec()
                } else {
                    v.inodes[i]
                }),
        decreases NUM_INODES - ino,
    {
        let in_use = !sbi.dev.inode(ino).is_free();
        if in_use && !valid.contains_key(&ino) {
            sbi.dev.set_inode(ino, HayleyFsInode::zeroed());
        }
        proof {
            assert forall|i: int|
                0 <= i < NUM_INODES implies #[trigger] sbi.dev@.inodes[i] == (if i < ino + 1 && !tree_reachable(v, i as InodeNum) {
                    zero_inode_spec()
                } else {
                    v.inodes[i]
                }) by {
                if i == ino && !tree_reachable(v, i as InodeNum) && !in_use {
                    assert(v.inodes[i] == zero_inode_spec());
                }
            }
        }
        ino = ino + 1;
    }
    Ok(())
}

} // verus!
