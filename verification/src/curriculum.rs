//! The curriculum: superblocks of blocks of challenges, the certifications,
//! and the selections that are made from them.

use vstd::prelude::*;

verus! {

/// The whole curriculum. Superblocks are held in the order in which they were
/// given, each under its dashed name.
#[derive(Debug)]
pub struct Curriculum {
    pub certifications: Certifications,
    pub superblocks: Vec<(String, Superblock)>,
}

/// The certification blocks, each under its name.
#[derive(Debug)]
pub struct Certifications {
    pub blocks: Vec<(String, CertBlock)>,
}

#[derive(Debug)]
pub struct CertBlock {
    pub challenges: Vec<CertChallenge>,
}

#[derive(Debug)]
pub struct CertChallenge {
    pub id: String,
    pub title: String,
    pub tests: Vec<CertTest>,
}

#[derive(Debug)]
pub struct CertTest {
    pub id: String,
    pub title: String,
}

/// The blocks of a superblock, each under its dashed name.
#[derive(Debug)]
pub struct Superblock {
    pub blocks: Vec<(String, Block)>,
}

#[derive(Debug)]
pub struct Block {
    pub meta: Meta,
    pub challenges: Vec<Challenge>,
}

#[derive(Debug)]
pub struct Meta {
    pub name: String,
    pub dashed_name: String,
    pub challenge_order: Vec<ChallengeOrder>,
    pub order: u16,
}

#[derive(Debug)]
pub struct ChallengeOrder {
    pub id: String,
    pub title: String,
}

#[derive(Debug)]
pub struct Challenge {
    pub id: String,
    pub title: String,
    pub dashed_name: String,
}

/// The challenges of the blocks, block after block.
pub open spec fn challenges_of_blocks(blocks: Seq<(String, Block)>) -> Seq<Challenge>
    decreases blocks.len(),
{
    if blocks.len() == 0 {
        Seq::empty()
    } else {
        challenges_of_blocks(blocks.drop_last()) + blocks.last().1.challenges@
    }
}

/// The challenges of the superblocks, superblock after superblock.
pub open spec fn challenges_of_superblocks(superblocks: Seq<(String, Superblock)>) -> Seq<
    Challenge,
>
    decreases superblocks.len(),
{
    if superblocks.len() == 0 {
        Seq::empty()
    } else {
        challenges_of_superblocks(superblocks.drop_last()) + challenges_of_blocks(
            superblocks.last().1.blocks@,
        )
    }
}

/// The certification challenges of the blocks, block after block.
pub open spec fn certifications_of(blocks: Seq<(String, CertBlock)>) -> Seq<CertChallenge>
    decreases blocks.len(),
{
    if blocks.len() == 0 {
        Seq::empty()
    } else {
        certifications_of(blocks.drop_last()) + blocks.last().1.challenges@
    }
}

/// The tests of the certification challenges, challenge after challenge.
pub open spec fn tests_of(challenges: Seq<CertChallenge>) -> Seq<CertTest>
    decreases challenges.len(),
{
    if challenges.len() == 0 {
        Seq::empty()
    } else {
        tests_of(challenges.drop_last()) + challenges.last().tests@
    }
}

/// The names under which the entries are held, in order.
pub open spec fn names_of<T>(entries: Seq<(String, T)>) -> Seq<String> {
    Seq::new(entries.len(), |i: int| entries[i].0)
}

impl Challenge {
    /// The text under which the challenge is shown: its title.
    pub fn label(&self) -> (text: String)
        ensures
            text == self.title,
    {
        self.title.clone()
    }

    /// A copy of the challenge.
    pub fn duplicate(&self) -> (copy: Challenge)
        ensures
            copy == *self,
    {
        Challenge {
            id: self.id.clone(),
            title: self.title.clone(),
            dashed_name: self.dashed_name.clone(),
        }
    }
}

impl CertTest {
    /// The text under which the test is shown: its title.
    pub fn label(&self) -> (text: String)
        ensures
            text == self.title,
    {
        self.title.clone()
    }

    /// A copy of the test.
    pub fn duplicate(&self) -> (copy: CertTest)
        ensures
            copy == *self,
    {
        CertTest { id: self.id.clone(), title: self.title.clone() }
    }
}

impl CertChallenge {
    /// The text under which the certification challenge is shown: its title.
    pub fn label(&self) -> (text: String)
        ensures
            text == self.title,
    {
        self.title.clone()
    }
}

impl Block {
    /// The text under which the block is shown: its name.
    pub fn label(&self) -> (text: String)
        ensures
            text == self.meta.name,
    {
        self.meta.name.clone()
    }
}

fn append_challenges(out: &mut Vec<Challenge>, more: &Vec<Challenge>)
    ensures
        final(out)@ == old(out)@ + more@,
{
    let mut i: usize = 0;
    while i < more.len()
        invariant
            i <= more@.len(),
            out@ == old(out)@ + more@.subrange(0, i as int),
        decreases more@.len() - i,
    {
        out.push(more[i].duplicate());
        assert(out@ =~= old(out)@ + more@.subrange(0, i + 1));
        i = i + 1;
    }
    assert(more@.subrange(0, i as int) =~= more@);
}

fn append_tests(out: &mut Vec<CertTest>, more: &Vec<CertTest>)
    ensures
        final(out)@ == old(out)@ + more@,
{
    let mut i: usize = 0;
    while i < more.len()
        invariant
            i <= more@.len(),
            out@ == old(out)@ + more@.subrange(0, i as int),
        decreases more@.len() - i,
    {
        out.push(more[i].duplicate());
        assert(out@ =~= old(out)@ + more@.subrange(0, i + 1));
        i = i + 1;
    }
    assert(more@.subrange(0, i as int) =~= more@);
}

/// Every challenge of every block of every superblock, in the order in which
/// the curriculum holds them.
pub fn get_challenges(curriculum: &Curriculum) -> (challenges: Vec<Challenge>)
    ensures
        challenges@ == challenges_of_superblocks(curriculum.superblocks@),
{
    let mut challenges: Vec<Challenge> = Vec::new();
    let mut i: usize = 0;
    assert(curriculum.superblocks@.subrange(0, 0) =~= Seq::empty());
    while i < curriculum.superblocks.len()
        invariant
            i <= curriculum.superblocks@.len(),
            challenges@ == challenges_of_superblocks(curriculum.superblocks@.subrange(0, i as int)),
        decreases curriculum.superblocks@.len() - i,
    {
        let blocks: &Vec<(String, Block)> = &curriculum.superblocks[i].1.blocks;
        let ghost before = challenges@;
        let mut j: usize = 0;
        assert(blocks@.subrange(0, 0) =~= Seq::empty());
        while j < blocks.len()
            invariant
                j <= blocks@.len(),
                challenges@ == before + challenges_of_blocks(blocks@.subrange(0, j as int)),
            decreases blocks@.len() - j,
        {
            append_challenges(&mut challenges, &blocks[j].1.challenges);
            proof {
                let upto = blocks@.subrange(0, j + 1);
                assert(upto.drop_last() =~= blocks@.subrange(0, j as int));
                assert(challenges@ =~= before + challenges_of_blocks(upto));
            }
            j = j + 1;
        }
        proof {
            assert(blocks@.subrange(0, j as int) =~= blocks@);
            let upto = curriculum.superblocks@.subrange(0, i + 1);
            assert(upto.drop_last() =~= curriculum.superblocks@.subrange(0, i as int));
        }
        i = i + 1;
    }
    assert(curriculum.superblocks@.subrange(0, i as int) =~= curriculum.superblocks@);
    challenges
}

/// Every certification challenge of every certification block, in the order
/// in which the curriculum holds them: what a certification is chosen from.
pub fn certification_challenges(curriculum: &Curriculum) -> (challenges: Vec<&CertChallenge>)
    ensures
        challenges@.len() == certifications_of(curriculum.certifications.blocks@).len(),
        forall|k: int|
            0 <= k < challenges@.len() ==> *(#[trigger] challenges@[k]) == certifications_of(
                curriculum.certifications.blocks@,
            )[k],
{
    let blocks: &Vec<(String, CertBlock)> = &curriculum.certifications.blocks;
    let mut challenges: Vec<&CertChallenge> = Vec::new();
    let mut i: usize = 0;
    assert(blocks@.subrange(0, 0) =~= Seq::empty());
    while i < blocks.len()
        invariant
            i <= blocks@.len(),
            challenges@.len() == certifications_of(blocks@.subrange(0, i as int)).len(),
            forall|k: int|
                0 <= k < challenges@.len() ==> *(#[trigger] challenges@[k]) == certifications_of(
                    blocks@.subrange(0, i as int),
                )[k],
        decreases blocks@.len() - i,
    {
        let more: &Vec<CertChallenge> = &blocks[i].1.challenges;
        let ghost before = certifications_of(blocks@.subrange(0, i as int));
        let mut j: usize = 0;
        while j < more.len()
            invariant
                j <= more@.len(),
                challenges@.len() == before.len() + j,
                forall|k: int|
                    0 <= k < challenges@.len() ==> *(#[trigger] challenges@[k]) == (before
                        + more@)[k],
            decreases more@.len() - j,
        {
            challenges.push(&more[j]);
            j = j + 1;
        }
        proof {
            let upto = blocks@.subrange(0, i + 1);
            assert(upto.drop_last() =~= blocks@.subrange(0, i as int));
            assert(certifications_of(upto) =~= before + more@);
        }
        i = i + 1;
    }
    assert(blocks@.subrange(0, i as int) =~= blocks@);
    challenges
}

/// The tests of the chosen certification challenges, challenge after
/// challenge.
pub fn certification_tests(chosen: &Vec<CertChallenge>) -> (tests: Vec<CertTest>)
    ensures
        tests@ == tests_of(chosen@),
{
    let mut tests: Vec<CertTest> = Vec::new();
    let mut i: usize = 0;
    assert(chosen@.subrange(0, 0) =~= Seq::empty());
    while i < chosen.len()
        invariant
            i <= chosen@.len(),
            tests@ == tests_of(chosen@.subrange(0, i as int)),
        decreases chosen@.len() - i,
    {
        append_tests(&mut tests, &chosen[i].tests);
        proof {
            let upto = chosen@.subrange(0, i + 1);
            assert(upto.drop_last() =~= chosen@.subrange(0, i as int));
        }
        i = i + 1;
    }
    assert(chosen@.subrange(0, i as int) =~= chosen@);
    tests
}

/// The dashed names of the superblocks, in order: what a superblock is chosen
/// from.
pub fn superblock_names(curriculum: &Curriculum) -> (names: Vec<String>)
    ensures
        names@ == names_of(curriculum.superblocks@),
{
    let mut names: Vec<String> = Vec::new();
    let mut i: usize = 0;
    while i < curriculum.superblocks.len()
        invariant
            i <= curriculum.superblocks@.len(),
            names@ == names_of(curriculum.superblocks@).subrange(0, i as int),
        decreases curriculum.superblocks@.len() - i,
    {
        names.push(curriculum.superblocks[i].0.clone());
        assert(names@ =~= names_of(curriculum.superblocks@).subrange(0, i + 1));
        i = i + 1;
    }
    assert(names_of(curriculum.superblocks@).subrange(0, i as int) =~= names_of(
        curriculum.superblocks@,
    ));
    names
}

/// No two of the entries are held under the same name.
pub open spec fn distinct_names<T>(entries: Seq<(String, T)>) -> bool {
    forall|a: int, b: int|
        0 <= a < b < entries.len() ==> (#[trigger] entries[a]).0@ != (#[trigger] entries[b]).0@
}

impl Superblock {
    /// Each block is held under a name of its own.
    pub open spec fn wf(&self) -> bool {
        distinct_names(self.blocks@)
    }
}

impl Curriculum {
    /// Each superblock, each block of a superblock and each certification
    /// block is held under a name of its own, as in a map from names.
    pub open spec fn wf(&self) -> bool {
        &&& distinct_names(self.superblocks@)
        &&& distinct_names(self.certifications.blocks@)
        &&& forall|i: int|
            0 <= i < self.superblocks@.len() ==> (#[trigger] self.superblocks@[i]).1.wf()
    }
}

/// Tells whether no two of the entries are held under the same name.
pub fn has_distinct_names<T>(entries: &Vec<(String, T)>) -> (distinct: bool)
    ensures
        distinct == distinct_names(entries@),
{
    let mut b: usize = 0;
    while b < entries.len()
        invariant
            b <= entries@.len(),
            forall|x: int, y: int|
                0 <= x < y < b ==> (#[trigger] entries@[x]).0@ != (#[trigger] entries@[y]).0@,
        decreases entries@.len() - b,
    {
        let mut a: usize = 0;
        while a < b
            invariant
                a <= b < entries@.len(),
                forall|x: int| 0 <= x < a ==> (#[trigger] entries@[x]).0@ != entries@[b as int].0@,
            decreases b - a,
        {
            if entries[a].0 == entries[b].0 {
                return false;
            }
            a = a + 1;
        }
        b = b + 1;
    }
    true
}

/// Tells whether the curriculum holds each superblock, each block of a
/// superblock and each certification block under a name of its own.
pub fn is_well_formed(curriculum: &Curriculum) -> (ok: bool)
    ensures
        ok == curriculum.wf(),
{
    if !has_distinct_names(&curriculum.superblocks) {
        return false;
    }
    if !has_distinct_names(&curriculum.certifications.blocks) {
        return false;
    }
    let mut i: usize = 0;
    while i < curriculum.superblocks.len()
        invariant
            i <= curriculum.superblocks@.len(),
            forall|j: int| 0 <= j < i ==> (#[trigger] curriculum.superblocks@[j]).1.wf(),
        decreases curriculum.superblocks@.len() - i,
    {
        if !has_distinct_names(&curriculum.superblocks[i].1.blocks) {
            assert(!curriculum.superblocks@[i as int].1.wf());
            return false;
        }
        i = i + 1;
    }
    true
}

/// The place of the first entry that is held under `name`, if there is one.
/// Where the entries are held under distinct names, it is the only one.
pub fn position_of<T>(entries: &Vec<(String, T)>, name: &String) -> (found: Option<usize>)
    ensures
        match found {
            Some(at) => {
                &&& at < entries@.len()
                &&& entries@[at as int].0@ == name@
                &&& forall|j: int| 0 <= j < at ==> (#[trigger] entries@[j]).0@ != name@
                &&& distinct_names(entries@) ==> forall|j: int|
                    0 <= j < entries@.len() && j != at ==> (#[trigger] entries@[j]).0@ != name@
            },
            None => forall|j: int| 0 <= j < entries@.len() ==> (#[trigger] entries@[j]).0@ != name@,
        },
{
    let mut i: usize = 0;
    while i < entries.len()
        invariant
            i <= entries@.len(),
            forall|j: int| 0 <= j < i ==> (#[trigger] entries@[j]).0@ != name@,
        decreases entries@.len() - i,
    {
        if entries[i].0 == *name {
            return Some(i);
        }
        i = i + 1;
    }
    None
}

/// Block `j` comes before block `i`: its order is lower, or the orders are
/// equal and it is held earlier.
pub open spec fn precedes(blocks: Seq<(String, Block)>, j: int, i: int) -> bool {
    blocks[j].1.meta.order < blocks[i].1.meta.order || (blocks[j].1.meta.order
        == blocks[i].1.meta.order && j < i)
}

/// The number of blocks among the first `n` that come before block `i`.
pub open spec fn rank(blocks: Seq<(String, Block)>, i: int, n: int) -> int
    decreases n,
{
    if n <= 0 {
        0
    } else if precedes(blocks, n - 1, i) {
        rank(blocks, i, n - 1) + 1
    } else {
        rank(blocks, i, n - 1)
    }
}

/// The rank of a block among the first `n` is at least zero and at most `n`,
/// and below `n` once the block itself is among them.
pub proof fn lemma_rank_bounds(blocks: Seq<(String, Block)>, i: int, n: int)
    requires
        0 <= n,
    ensures
        0 <= rank(blocks, i, n) <= n,
        0 <= i < n ==> rank(blocks, i, n) < n,
    decreases n,
{
    if n > 0 {
        lemma_rank_bounds(blocks, i, n - 1);
    }
}

/// A block that comes before another has the lower rank among all blocks.
pub proof fn lemma_rank_rises(blocks: Seq<(String, Block)>, a: int, b: int, n: int)
    requires
        0 <= a < blocks.len(),
        0 <= b < blocks.len(),
        0 <= n <= blocks.len(),
        precedes(blocks, a, b),
    ensures
        rank(blocks, a, n) <= rank(blocks, b, n),
        a < n ==> rank(blocks, a, n) < rank(blocks, b, n),
    decreases n,
{
    if n > 0 {
        lemma_rank_rises(blocks, a, b, n - 1);
    }
}

/// Two different blocks have different ranks among all blocks.
pub proof fn lemma_rank_is_injective(blocks: Seq<(String, Block)>, a: int, b: int)
    requires
        0 <= a < blocks.len(),
        0 <= b < blocks.len(),
        a != b,
    ensures
        rank(blocks, a, blocks.len() as int) != rank(blocks, b, blocks.len() as int),
{
    if precedes(blocks, a, b) {
        lemma_rank_rises(blocks, a, b, blocks.len() as int);
    } else {
        lemma_rank_rises(blocks, b, a, blocks.len() as int);
    }
}

/// Where two places of the ranking are in order, so are the orders of the
/// blocks that stand there.
pub proof fn lemma_ranked_blocks_are_sorted(blocks: Seq<(String, Block)>, a: int, b: int)
    requires
        0 <= a < blocks.len(),
        0 <= b < blocks.len(),
        rank(blocks, a, blocks.len() as int) < rank(blocks, b, blocks.len() as int),
    ensures
        blocks[a].1.meta.order <= blocks[b].1.meta.order,
{
    if !precedes(blocks, a, b) {
        if a != b {
            lemma_rank_rises(blocks, b, a, blocks.len() as int);
        }
    }
}

/// The places of the blocks, ordered by the blocks' order; blocks of equal
/// order keep the order in which they are held. The place of block `i` in the
/// result is the number of blocks that come before it.
pub fn blocks_in_order(blocks: &Vec<(String, Block)>) -> (places: Vec<usize>)
    ensures
        places@.len() == blocks@.len(),
        forall|i: int|
            0 <= i < blocks@.len() ==> 0 <= #[trigger] rank(blocks@, i, blocks@.len() as int)
                < places@.len() && places@[rank(blocks@, i, blocks@.len() as int)] == i,
{
    let n: usize = blocks.len();
    let mut places: Vec<usize> = Vec::new();
    while places.len() < n
        invariant
            places@.len() <= n,
        decreases n - places@.len(),
    {
        places.push(0);
    }
    let mut i: usize = 0;
    while i < n
        invariant
            i <= n,
            n == blocks@.len(),
            places@.len() == n,
            forall|k: int|
                0 <= k < i ==> 0 <= #[trigger] rank(blocks@, k, n as int) < n && places@[rank(
                    blocks@,
                    k,
                    n as int,
                )] == k,
        decreases n - i,
    {
        let mut count: usize = 0;
        let mut j: usize = 0;
        while j < n
            invariant
                j <= n,
                i < n,
                n == blocks@.len(),
                count == rank(blocks@, i as int, j as int),
                count <= j,
            decreases n - j,
        {
            let theirs: u16 = blocks[j].1.meta.order;
            let ours: u16 = blocks[i].1.meta.order;
            if theirs < ours || (theirs == ours && j < i) {
                count = count + 1;
            }
            j = j + 1;
        }
        proof {
            lemma_rank_bounds(blocks@, i as int, n as int);
            assert forall|k: int| 0 <= k < i implies rank(blocks@, k, n as int) != count by {
                lemma_rank_is_injective(blocks@, k, i as int);
            }
        }
        places.set(count, i);
        i = i + 1;
    }
    places
}

} // verus!
