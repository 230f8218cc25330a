use vstd::prelude::*;

verus! {

/// The four bytes that tag an extension block.
pub type Signature = [u8; 4];

/// The tag of the cached-tree extension, `TREE`.
pub open spec fn tree_signature() -> Seq<u8> {
    seq![84u8, 82u8, 69u8, 69u8]
}

/// The tag of the end-of-index-entry extension, `EOIE`.
pub open spec fn end_of_index_entry_signature() -> Seq<u8> {
    seq![69u8, 79u8, 73u8, 69u8]
}

/// Returns `TREE`.
pub fn tree_sig() -> (r: Signature)
    ensures
        r@ == tree_signature(),
{
    let r: Signature = [84u8, 82u8, 69u8, 69u8];
    assert(r@ =~= tree_signature());
    r
}

/// Returns `EOIE`.
pub fn end_of_index_entry_sig() -> (r: Signature)
    ensures
        r@ == end_of_index_entry_signature(),
{
    let r: Signature = [69u8, 79u8, 73u8, 69u8];
    assert(r@ =~= end_of_index_entry_signature());
    r
}

/// Whether two signatures hold the same bytes.
pub fn same_signature(a: &Signature, b: &Signature) -> (r: bool)
    ensures
        r == (a@ == b@),
{
    let r = a[0] == b[0] && a[1] == b[1] && a[2] == b[2] && a[3] == b[3];
    if r {
        assert(a@ =~= b@);
    } else {
        assert(a@ != b@) by {
            if a@ == b@ {
                assert(a@[0] == b@[0] && a@[1] == b@[1] && a@[2] == b@[2] && a@[3] == b@[3]);
            }
        }
    }
    r
}

/// A way to specify which extensions to write.
#[derive(Debug, Copy, Clone)]
pub enum Extensions {
    /// Writes all available extensions.
    All,
    /// Only write the given extensions, each marked by a flag.
    Given {
        /// Write the cached-tree extension, if present.
        tree_cache: bool,
        /// Write the end-of-index-entry extension.
        end_of_index_entry: bool,
    },
    /// Write no extension at all.
    Nothing,
}

impl Extensions {
    /// Whether this policy approves writing the extension tagged `sig`.
    pub open spec fn approves(self, sig: Seq<u8>) -> bool {
        match self {
            Extensions::All => true,
            Extensions::Nothing => false,
            Extensions::Given { tree_cache, end_of_index_entry } =>
                (sig == tree_signature() && tree_cache)
                || (sig == end_of_index_entry_signature() && end_of_index_entry),
        }
    }

    /// Returns `Some(signature)` if it should be written out.
    pub fn should_write(&self, signature: Signature) -> (r: Option<Signature>)
        ensures
            r == (if self.approves(signature@) { Some(signature) } else { None::<Signature> }),
    {
        match self {
            Extensions::Nothing => None,
            Extensions::All => Some(signature),
            Extensions::Given { tree_cache, end_of_index_entry } => {
                let flag = if same_signature(&signature, &tree_sig()) {
                    *tree_cache
                } else if same_signature(&signature, &end_of_index_entry_sig()) {
                    *end_of_index_entry
                } else {
                    false
                };
                if flag {
                    Some(signature)
                } else {
                    None
                }
            },
        }
    }
}

impl Default for Extensions {
    fn default() -> (r: Self)
        ensures
            r == Extensions::All,
    {
        Extensions::All
    }
}

} // verus!
