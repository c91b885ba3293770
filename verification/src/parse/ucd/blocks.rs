//! The blocks: named ranges of code points.

use crate::parse::{first_from, first_where, lemma_filter_push, lemma_first_from, TableError};
use crate::text;
use crate::text::model;
use crate::text::model::views;
use crate::text::radix;
use std::ops::RangeInclusive;
use vstd::prelude::*;

verus! {

/// A block: its name and the range of its code points, both ends included.
#[derive(Debug, Clone)]
pub struct CodepointsBlock {
    pub name: String,
    pub from: u32,
    pub to: u32,
}

/// What a [`CodepointsBlock`] holds.
pub struct CodepointsBlockView {
    pub name: Seq<char>,
    pub from: u32,
    pub to: u32,
}

impl CodepointsBlockView {
    /// Whether `code` lies in the block.
    pub open spec fn covers(self, code: u32) -> bool {
        self.from <= code <= self.to
    }
}

impl View for CodepointsBlock {
    type V = CodepointsBlockView;

    open spec fn view(&self) -> CodepointsBlockView {
        CodepointsBlockView { name: self.name@, from: self.from, to: self.to }
    }
}

impl CodepointsBlock {
    /// The code points of the block.
    pub fn range(&self) -> (r: RangeInclusive<u32>)
        ensures
            r@.start == self.from,
            r@.end == self.to,
            !r@.exhausted,
    {
        RangeInclusive::new(self.from, self.to)
    }

    /// Whether `code` lies in the block.
    pub fn covers(&self, code: u32) -> (r: bool)
        ensures
            r == self@.covers(code),
    {
        self.from <= code && code <= self.to
    }
}

/// What a character adds to the key of a name: a letter from `a` to `z` in
/// lower case, or nothing. The Kelvin sign and the capital I with a dot
/// above are the two characters beyond `A` to `Z` whose lower case holds
/// such a letter.
pub open spec fn key_char(c: char) -> Option<char> {
    if 'a' <= c <= 'z' {
        Some(c)
    } else if 'A' <= c <= 'Z' {
        Some((c as u8 + 32) as char)
    } else if c == '\u{212a}' {
        Some('k')
    } else if c == '\u{130}' {
        Some('i')
    } else {
        None
    }
}

/// The key under which a block name is found: its letters in lower case.
/// Case, white space, hyphens and underscores make no difference between
/// two names.
pub open spec fn key_of(name: Seq<char>) -> Seq<char>
    decreases name.len(),
{
    if name.len() == 0 {
        Seq::empty()
    } else {
        match key_char(name.last()) {
            Some(c) => key_of(name.drop_last()).push(c),
            None => key_of(name.drop_last()),
        }
    }
}

/// What a character adds to the key of a name.
fn key_char_of(c: char) -> (r: Option<char>)
    ensures
        r == key_char(c),
{
    if 'a' <= c && c <= 'z' {
        Some(c)
    } else if 'A' <= c && c <= 'Z' {
        Some((c as u8 + 32) as char)
    } else if c == '\u{212a}' {
        Some('k')
    } else if c == '\u{130}' {
        Some('i')
    } else {
        None
    }
}

/// The key of a name, as characters.
fn key_chars(name: &[char]) -> (r: Vec<char>)
    ensures
        r@ == key_of(name@),
{
    let mut out: Vec<char> = Vec::new();
    let mut i: usize = 0;
    assert(name@.take(0) =~= Seq::empty());
    while i < name.len()
        invariant
            i <= name.len(),
            out@ == key_of(name@.take(i as int)),
        decreases name.len() - i,
    {
        proof {
            assert(name@.take(i + 1).drop_last() =~= name@.take(i as int));
        }
        match key_char_of(name[i]) {
            Some(c) => {
                out.push(c);
            },
            None => {},
        }
        i += 1;
    }
    assert(name@.take(i as int) =~= name@);
    out
}

/// The key under which a block name is found.
pub fn key(name: &str) -> (r: String)
    ensures
        r@ == key_of(name@),
{
    let chars = text::to_chars(name);
    let k = key_chars(chars.as_slice());
    text::from_chars(k.as_slice())
}

/// The lines that hold a block: all but empty lines and comments.
pub open spec fn holds_block() -> spec_fn(Seq<char>) -> bool {
    |line: Seq<char>| line.len() > 0 && !"#"@.is_prefix_of(line)
}

/// The block that a line denotes: the first and the last code point in
/// hexadecimal with `..` between them, a semicolon, and the name.
pub open spec fn block_of(line: Seq<char>) -> Result<CodepointsBlockView, TableError> {
    match model::split_once(line, ";"@) {
        None => Err(TableError::MissingSeparator),
        Some((range, name)) => match model::split_once(range, ".."@) {
            None => Err(TableError::MissingSeparator),
            Some((from, to)) => match (radix::hex_u32(from), radix::hex_u32(to)) {
                (Some(from), Some(to)) => Ok(
                    CodepointsBlockView { name: model::trim(name), from, to },
                ),
                _ => Err(TableError::BadNumber),
            },
        },
    }
}

/// The class of the blocks whose name has the key `k`.
pub open spec fn named(k: Seq<char>) -> spec_fn(CodepointsBlockView) -> bool {
    |block: CodepointsBlockView| key_of(block.name) == k
}

/// The class of the blocks in which `code` lies.
pub open spec fn covering(code: u32) -> spec_fn(CodepointsBlockView) -> bool {
    |block: CodepointsBlockView| block.covers(code)
}

/// Whether no two of the blocks have the same key.
pub open spec fn has_unique_keys(blocks: Seq<CodepointsBlockView>) -> bool {
    forall|i: int, j: int|
        0 <= i < j < blocks.len() ==> key_of(#[trigger] blocks[i].name) != key_of(
            #[trigger] blocks[j].name,
        )
}

/// The blocks that the lines denote, in the order of the lines. The first
/// line that denotes no block, or a block whose key an earlier block has,
/// fails the whole.
pub open spec fn blocks_of_lines(lines: Seq<Seq<char>>) -> Result<
    Seq<CodepointsBlockView>,
    TableError,
>
    decreases lines.len(),
{
    if lines.len() == 0 {
        Ok(Seq::empty())
    } else {
        match blocks_of_lines(lines.drop_last()) {
            Err(e) => Err(e),
            Ok(done) => match block_of(lines.last()) {
                Err(e) => Err(e),
                Ok(block) => if first_where(done, named(key_of(block.name))) is Some {
                    Err(TableError::DuplicateBlock)
                } else {
                    Ok(done.push(block))
                },
            },
        }
    }
}

/// The blocks that a source text denotes.
pub open spec fn blocks_of(source: Seq<char>) -> Result<Seq<CodepointsBlockView>, TableError> {
    blocks_of_lines(model::lines(source).filter(holds_block()))
}

/// An error among the first lines is the error of the whole.
proof fn lemma_blocks_error(head: Seq<Seq<char>>, tail: Seq<Seq<char>>)
    requires
        blocks_of_lines(head) is Err,
    ensures
        blocks_of_lines(head + tail) == blocks_of_lines(head),
    decreases tail.len(),
{
    if tail.len() == 0 {
        assert(head + tail =~= head);
    } else {
        lemma_blocks_error(head, tail.drop_last());
        assert((head + tail).drop_last() =~= head + tail.drop_last());
    }
}

/// The blocks of a source text that was built have distinct keys.
pub proof fn lemma_blocks_unique(lines: Seq<Seq<char>>)
    ensures
        blocks_of_lines(lines) matches Ok(blocks) ==> has_unique_keys(blocks),
    decreases lines.len(),
{
    if lines.len() > 0 {
        lemma_blocks_unique(lines.drop_last());
        if let Ok(blocks) = blocks_of_lines(lines) {
            let done = blocks_of_lines(lines.drop_last()).unwrap();
            let block = block_of(lines.last()).unwrap();
            lemma_first_from(done, named(key_of(block.name)), 0);
            assert forall|i: int, j: int| 0 <= i < j < blocks.len() implies key_of(
                #[trigger] blocks[i].name,
            ) != key_of(#[trigger] blocks[j].name) by {
                if j < done.len() {
                    assert(blocks[i] == done[i] && blocks[j] == done[j]);
                } else {
                    assert(blocks[i] == done[i]);
                    assert(!named(key_of(block.name))(done[i]));
                }
            }
        }
    }
}

/// The blocks of the database, in the order of their source.
pub struct BlockIndex {
    blocks: Vec<CodepointsBlock>,
    keys: Vec<Vec<char>>,
}

/// What the blocks hold, block by block.
pub open spec fn blocks_view(blocks: Seq<CodepointsBlock>) -> Seq<CodepointsBlockView> {
    blocks.map_values(|b: CodepointsBlock| b@)
}

impl View for BlockIndex {
    type V = Seq<CodepointsBlockView>;

    closed spec fn view(&self) -> Seq<CodepointsBlockView> {
        blocks_view(self.blocks@)
    }
}

impl BlockIndex {
    /// Each block is stored with the key of its name, and no two blocks
    /// have the same key.
    #[verifier::type_invariant]
    spec fn keyed(&self) -> bool {
        &&& has_unique_keys(blocks_view(self.blocks@))
        &&& self.keys@.len() == self.blocks@.len()
        &&& forall|i: int|
            0 <= i < self.keys@.len() ==> (#[trigger] self.keys@[i])@ == key_of(
                self.blocks@[i].name@,
            )
    }

    /// The number of blocks.
    pub fn len(&self) -> (n: usize)
        ensures
            n == self@.len(),
    {
        self.blocks.len()
    }

    /// The block at index `i`, in the order of the source.
    pub fn block(&self, i: usize) -> (r: &CodepointsBlock)
        requires
            i < self@.len(),
        ensures
            r@ == self@[i as int],
    {
        &self.blocks[i]
    }

    /// The index of the first block whose key is `k`.
    fn position_of_key(&self, k: &[char]) -> (r: Option<usize>)
        ensures
            match r {
                Some(i) => first_where(self@, named(k@)) == Some(i as int),
                None => first_where(self@, named(k@)) is None,
            },
    {
        proof {
            use_type_invariant(self);
        }
        let mut i: usize = 0;
        while i < self.keys.len()
            invariant
                i <= self.keys@.len(),
                self.keyed(),
                first_where(self@, named(k@)) == first_from(self@, named(k@), i as int),
            decreases self.keys@.len() - i,
        {
            assert(self@[i as int] == self.blocks@[i as int]@);
            if text::same(self.keys[i].as_slice(), k) {
                return Some(i);
            }
            i += 1;
        }
        None
    }
}

/// Parses the line of one block.
fn parse_block(line: &[char]) -> (r: Result<CodepointsBlock, TableError>)
    ensures
        match r {
            Ok(block) => block_of(line@) == Ok::<CodepointsBlockView, TableError>(block@),
            Err(e) => block_of(line@) == Err::<CodepointsBlockView, TableError>(e),
        },
{
    let semicolon = text::to_chars(";");
    let dots = text::to_chars("..");
    let (range, name) = match text::split_once(line, semicolon.as_slice()) {
        Some(parts) => parts,
        None => {
            return Err(TableError::MissingSeparator);
        },
    };
    let (from, to) = match text::split_once(range, dots.as_slice()) {
        Some(parts) => parts,
        None => {
            return Err(TableError::MissingSeparator);
        },
    };
    match (radix::parse_hex_u32(from), radix::parse_hex_u32(to)) {
        (Some(from), Some(to)) => Ok(
            CodepointsBlock { name: text::from_chars(text::trim(name)), from, to },
        ),
        _ => Err(TableError::BadNumber),
    }
}

/// Builds the index of the blocks from the text of its source. A line that
/// breaks the grammar, or a block whose name has the key of an earlier
/// block, fails the build.
pub fn blocks(source: &str) -> (r: Result<BlockIndex, TableError>)
    ensures
        match r {
            Ok(index) => blocks_of(source@) == Ok::<Seq<CodepointsBlockView>, TableError>(index@),
            Err(e) => blocks_of(source@) == Err::<Seq<CodepointsBlockView>, TableError>(e),
        },
        r matches Ok(index) ==> has_unique_keys(index@),
{
    let chars = text::to_chars(source);
    let lines = text::lines(chars.as_slice());
    let comment = text::to_chars("#");
    let ghost all = views(lines@);
    let mut index = BlockIndex { blocks: Vec::new(), keys: Vec::new() };
    let mut i: usize = 0;
    proof {
        assert(all.take(0) =~= Seq::empty());
        reveal(Seq::filter);
        assert(index@ =~= Seq::empty());
    }
    while i < lines.len()
        invariant
            i <= lines.len(),
            comment@ == "#"@,
            all == views(lines@),
            all == model::lines(source@),
            blocks_of_lines(all.take(i as int).filter(holds_block())) == Ok::<
                Seq<CodepointsBlockView>,
                TableError,
            >(index@),
        decreases lines.len() - i,
    {
        let line = lines[i];
        proof {
            assert(all.take(i + 1) =~= all.take(i as int).push(all[i as int]));
            lemma_filter_push(all.take(i as int), all[i as int], holds_block());
            assert(all.take(i as int).filter(holds_block()).push(all[i as int]).drop_last()
                =~= all.take(i as int).filter(holds_block()));
        }
        if line.len() > 0 && !text::starts_with(line, comment.as_slice()) {
            let step = match parse_block(line) {
                Ok(block) => {
                    let chars = text::to_chars(block.name.as_str());
                    let k = key_chars(chars.as_slice());
                    match index.position_of_key(k.as_slice()) {
                        Some(_) => Err(TableError::DuplicateBlock),
                        None => Ok((block, k)),
                    }
                },
                Err(e) => Err(e),
            };
            match step {
                Ok((block, k)) => {
                    let ghost before = index@;
                    index = index.with(block, k);
                    assert(index@ == before.push(block@));
                },
                Err(e) => {
                    proof {
                        assert(all.take(i + 1) + all.skip(i + 1) =~= all);
                        Seq::filter_distributes_over_add(
                            all.take(i + 1),
                            all.skip(i + 1),
                            holds_block(),
                        );
                        lemma_blocks_error(
                            all.take(i + 1).filter(holds_block()),
                            all.skip(i + 1).filter(holds_block()),
                        );
                    }
                    return Err(e);
                },
            }
        }
        i += 1;
    }
    proof {
        assert(all.take(i as int) =~= all);
        lemma_blocks_unique(all.filter(holds_block()));
    }
    Ok(index)
}

impl BlockIndex {
    /// The index with one more block at its end.
    fn with(self, block: CodepointsBlock, k: Vec<char>) -> (r: BlockIndex)
        requires
            k@ == key_of(block.name@),
            first_where(self@, named(k@)) is None,
        ensures
            r@ == self@.push(block@),
    {
        proof {
            use_type_invariant(&self);
            lemma_first_from(self@, named(k@), 0);
        }
        let ghost before = blocks_view(self.blocks@);
        let BlockIndex { mut blocks, mut keys } = self;
        blocks.push(block);
        keys.push(k);
        proof {
            let after = blocks_view(blocks@);
            assert(after =~= before.push(block@));
            assert forall|i: int, j: int| 0 <= i < j < after.len() implies key_of(
                #[trigger] after[i].name,
            ) != key_of(#[trigger] after[j].name) by {
                if j < before.len() {
                    assert(after[i] == before[i] && after[j] == before[j]);
                } else {
                    assert(after[i] == before[i]);
                    assert(!named(k@)(before[i]));
                }
            }
        }
        let r = BlockIndex { blocks, keys };
        r
    }
}

/// Finds the block with the given name. Names are compared by their keys,
/// so case, white space, hyphens and underscores make no difference.
pub fn get_block_by_name<'a>(index: &'a BlockIndex, name: &str) -> (r: Option<&'a CodepointsBlock>)
    ensures
        has_unique_keys(index@),
        match r {
            Some(block) => first_where(index@, named(key_of(name@))) matches Some(i) && block@
                == index@[i],
            None => first_where(index@, named(key_of(name@))) is None,
        },
{
    let chars = text::to_chars(name);
    let k = key_chars(chars.as_slice());
    proof {
        use_type_invariant(index);
    }
    match index.position_of_key(k.as_slice()) {
        Some(i) => {
            proof {
                lemma_first_from(index@, named(k@), 0);
            }
            Some(index.block(i))
        },
        None => None,
    }
}

/// Finds the block in which a code point lies: the first such block in the
/// order of the source.
pub fn get_block_by_code(index: &BlockIndex, code: u32) -> (r: Option<&CodepointsBlock>)
    ensures
        match r {
            Some(block) => first_where(index@, covering(code)) matches Some(i) && block@
                == index@[i],
            None => first_where(index@, covering(code)) is None,
        },
{
    let mut i: usize = 0;
    while i < index.len()
        invariant
            i <= index@.len(),
            first_where(index@, covering(code)) == first_from(index@, covering(code), i as int),
        decreases index@.len() - i,
    {
        let block = index.block(i);
        if block.covers(code) {
            return Some(block);
        }
        i += 1;
    }
    None
}

/// The key of a text in two parts is the key of the first part and then
/// that of the second.
pub proof fn lemma_key_of_parts(a: Seq<char>, b: Seq<char>)
    ensures
        key_of(a + b) == key_of(a) + key_of(b),
    decreases b.len(),
{
    if b.len() == 0 {
        assert(a + b =~= a);
        assert(key_of(a) + key_of(b) =~= key_of(a));
    } else {
        lemma_key_of_parts(a, b.drop_last());
        assert((a + b).drop_last() =~= a + b.drop_last());
        assert((a + b).last() == b.last());
        match key_char(b.last()) {
            Some(c) => {
                assert(key_of(a + b) =~= key_of(a) + key_of(b));
            },
            None => {},
        }
    }
}

/// A character that is no letter makes no difference to the key, wherever
/// in a name it stands: so white space, hyphens and underscores do not.
pub proof fn lemma_key_ignores(a: Seq<char>, c: char, b: Seq<char>)
    requires
        key_char(c) is None,
    ensures
        key_of(a + seq![c] + b) == key_of(a + b),
        key_char(' ') is None && key_char('-') is None && key_char('_') is None,
{
    lemma_key_of_parts(a + seq![c], b);
    lemma_key_of_parts(a, seq![c]);
    lemma_key_of_parts(a, b);
    assert(seq![c].drop_last() =~= Seq::<char>::empty());
    assert(key_of(seq![c]) =~= Seq::<char>::empty()) by {
        assert(key_of(seq![c].drop_last()) =~= Seq::<char>::empty());
    }
    assert(key_of(a) + Seq::<char>::empty() =~= key_of(a));
}

/// The case of a letter makes no difference to the key: two names of the
/// same length whose characters add the same to a key, as a capital and
/// its small letter do, have the same key.
pub proof fn lemma_key_ignores_case(a: Seq<char>, b: Seq<char>)
    requires
        a.len() == b.len(),
        forall|i: int| 0 <= i < a.len() ==> key_char(#[trigger] a[i]) == key_char(b[i]),
    ensures
        key_of(a) == key_of(b),
    decreases a.len(),
{
    if a.len() > 0 {
        assert(key_char(a[a.len() - 1]) == key_char(b[a.len() - 1]));
        lemma_key_ignores_case(a.drop_last(), b.drop_last());
    }
}

/// A capital letter adds to a key what its small letter adds.
pub proof fn lemma_key_char_of_capital(c: char)
    requires
        'A' <= c <= 'Z',
    ensures
        key_char(c) == key_char((c as u8 + 32) as char),
        'a' <= (c as u8 + 32) as char <= 'z',
{
}

/// Two names with the same letters, whatever their case and whatever stands
/// between the letters, name the same block.
pub proof fn lemma_lookup_by_letters(blocks: Seq<CodepointsBlockView>, a: Seq<char>, b: Seq<char>)
    requires
        key_of(a) == key_of(b),
    ensures
        first_where(blocks, named(key_of(a))) == first_where(blocks, named(key_of(b))),
{
}

} // verus!
