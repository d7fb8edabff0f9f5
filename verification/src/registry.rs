//! Migration registry builder.
//!
//! Given the filenames found in the migration directory, the builder strips
//! the aggregator's own file, parses each remaining filename into its name
//! token, and produces the registry: the tokens in ascending lexicographic
//! order.  A filename that does not follow the naming convention is a fatal
//! discovery error, never silently skipped, since a skipped entry would
//! silently drop a migration from execution.

use vstd::prelude::*;
use vstd::relations::sorted_by;
use vstd::multiset::group_multiset_axioms;
use vstd::seq_lib::group_to_multiset_ensures;
use vstd::string::StringSliceAdditionalSpecFns;

use crate::bytestr::{bytes_eq_slice, copy_prefix, push_bytes};
use crate::order::{lex_leq, sort_tokens, views_of, lemma_sorted_order_unique};

verus! {

/// Why discovery of the migration directory failed.
#[derive(Debug, PartialEq, Eq)]
pub enum DiscoveryError {
    /// The directory could not be listed at all.
    DirectoryUnreadable,
    /// A directory entry does not follow the module naming convention.
    MalformedName(Vec<u8>),
}

/// The ordered list of migration-module name tokens.
#[derive(Debug)]
pub struct MigrationRegistry {
    pub tokens: Vec<Vec<u8>>,
}

impl MigrationRegistry {
    /// The registry lists its tokens in ascending lexicographic order.
    pub open spec fn wf(self) -> bool {
        sorted_by(views_of(self.tokens@), lex_leq())
    }
}

/// The aggregator's own filename, excluded from discovery by name match.
pub open spec fn aggregator_name() -> Seq<u8> {
    "mod.rs".spec_bytes()
}

pub open spec fn is_ascii_digit(b: u8) -> bool {
    48 <= b && b <= 57
}

/// Bytes allowed in the human label: lowercase letters, digits, underscore.
pub open spec fn is_label_byte(b: u8) -> bool {
    is_ascii_digit(b) || (97 <= b && b <= 122) || b == 95
}

/// A name token is `m<timestamp>_<sequence>_<label>`: an `m`, eight digits of
/// date, an underscore, six digits of sequence number, an underscore, and a
/// non-empty label.  Lexicographic order of such tokens is chronological
/// order by construction.
pub open spec fn valid_token(t: Seq<u8>) -> bool {
    &&& t.len() >= 18
    &&& t[0] == 109  // m
    &&& (forall|i: int| 1 <= i < 9 ==> is_ascii_digit(#[trigger] t[i]))
    &&& t[9] == 95  // _
    &&& (forall|i: int| 10 <= i < 16 ==> is_ascii_digit(#[trigger] t[i]))
    &&& t[16] == 95  // _
    &&& (forall|i: int| 17 <= i < t.len() ==> is_label_byte(#[trigger] t[i]))
}

/// The filename's name token: the filename with the `.rs` suffix removed.
pub open spec fn stem_of(f: Seq<u8>) -> Seq<u8> {
    f.take(f.len() - 3)
}

/// A migration-module filename: a valid name token followed by `.rs`.
pub open spec fn valid_module_filename(f: Seq<u8>) -> bool {
    &&& f.len() >= 21
    &&& f[f.len() - 3] == 46  // .
    &&& f[f.len() - 2] == 114  // r
    &&& f[f.len() - 1] == 115  // s
    &&& valid_token(stem_of(f))
}

/// Every directory entry is either the aggregator or a well-formed module
/// filename; this is the condition under which discovery succeeds.
pub open spec fn discovered_ok(files: Seq<Seq<u8>>) -> bool {
    forall|i: int|
        0 <= i < files.len() ==> (#[trigger] files[i]) == aggregator_name()
            || valid_module_filename(files[i])
}

/// The name tokens of the module files, in directory order, the aggregator
/// excluded.
pub open spec fn tokens_of(files: Seq<Seq<u8>>) -> Seq<Seq<u8>>
    decreases files.len(),
{
    if files.len() == 0 {
        Seq::empty()
    } else {
        let rest = tokens_of(files.drop_last());
        if files.last() == aggregator_name() {
            rest
        } else {
            rest.push(stem_of(files.last()))
        }
    }
}

/// Checks a name token against the naming convention.
pub fn check_token(t: &Vec<u8>) -> (b: bool)
    ensures
        b == valid_token(t@),
{
    let n = t.len();
    if n < 18 {
        return false;
    }
    if t[0] != 109 {
        return false;
    }
    let mut i: usize = 1;
    while i < 9
        invariant
            1 <= i <= 9,
            n == t@.len() && n >= 18,
            forall|j: int| 1 <= j < i ==> is_ascii_digit(#[trigger] t@[j]),
        decreases 9 - i,
    {
        let c = t[i];
        if c < 48 || c > 57 {
            proof {
                assert(!valid_token(t@));
            }
            return false;
        }
        i = i + 1;
    }
    if t[9] != 95 {
        return false;
    }
    let mut i: usize = 10;
    while i < 16
        invariant
            10 <= i <= 16,
            n == t@.len() && n >= 18,
            forall|j: int| 10 <= j < i ==> is_ascii_digit(#[trigger] t@[j]),
        decreases 16 - i,
    {
        let c = t[i];
        if c < 48 || c > 57 {
            proof {
                assert(!valid_token(t@));
            }
            return false;
        }
        i = i + 1;
    }
    if t[16] != 95 {
        return false;
    }
    let mut i: usize = 17;
    while i < n
        invariant
            17 <= i <= n,
            n == t@.len() && n >= 18,
            forall|j: int| 17 <= j < i ==> is_label_byte(#[trigger] t@[j]),
        decreases n - i,
    {
        let c = t[i];
        if !((48 <= c && c <= 57) || (97 <= c && c <= 122) || c == 95) {
            proof {
                assert(!is_label_byte(t@[i as int]));
                assert(!valid_token(t@));
            }
            return false;
        }
        i = i + 1;
    }
    proof {
        assert(valid_token(t@));
    }
    true
}

/// Checks a filename against the module naming convention.
pub fn check_module_filename(f: &Vec<u8>) -> (b: bool)
    ensures
        b == valid_module_filename(f@),
{
    let n = f.len();
    if n < 21 {
        return false;
    }
    if f[n - 3] != 46 || f[n - 2] != 114 || f[n - 1] != 115 {
        return false;
    }
    let t = copy_prefix(f, n - 3);
    proof {
        assert(t@ == stem_of(f@));
    }
    check_token(&t)
}

/// Builds the migration registry from the filenames of the migration
/// directory.  The aggregator file is excluded by name; every other entry
/// must parse into a name token, and the registry lists the tokens in
/// ascending lexicographic order.
pub fn build_registry(files: &Vec<Vec<u8>>) -> (r: Result<MigrationRegistry, DiscoveryError>)
    ensures
        r is Ok <==> discovered_ok(views_of(files@)),
        r is Ok ==> r->Ok_0.wf(),
        r is Ok ==> views_of(r->Ok_0.tokens@).to_multiset() == tokens_of(
            views_of(files@),
        ).to_multiset(),
        r is Err && r->Err_0 is MalformedName ==> {
            let bad = r->Err_0->MalformedName_0;
            &&& views_of(files@).contains(bad@)
            &&& !valid_module_filename(bad@)
            &&& bad@ != aggregator_name()
        },
        r is Err ==> r->Err_0 is MalformedName,
{
    broadcast use group_multiset_axioms;
    broadcast use group_to_multiset_ensures;

    let mut toks: Vec<Vec<u8>> = Vec::new();
    let mut i: usize = 0;
    proof {
        let ov = views_of(files@);
        assert(views_of(toks@) =~= Seq::<Seq<u8>>::empty());
        assert(tokens_of(ov.take(0)).len() == 0);
        assert(views_of(toks@).to_multiset() =~= tokens_of(ov.take(0)).to_multiset());
    }
    while i < files.len()
        invariant
            i <= files@.len(),
            views_of(toks@).to_multiset() == tokens_of(views_of(files@).take(i as int)).to_multiset(),
            forall|j: int|
                0 <= j < i ==> (#[trigger] views_of(files@)[j]) == aggregator_name()
                    || valid_module_filename(views_of(files@)[j]),
        decreases files@.len() - i,
    {
        let ghost ov = views_of(files@);
        let ghost k = i as int;
        let f = &files[i];
        proof {
            assert(f@ == ov[k]);
            assert(ov.take(k + 1).drop_last() =~= ov.take(k));
            assert(ov.take(k + 1).last() == ov[k]);
        }
        if bytes_eq_slice(f, "mod.rs".as_bytes()) {
            proof {
                assert(f@ == aggregator_name());
                assert(tokens_of(ov.take(k + 1)) == tokens_of(ov.take(k)));
            }
            i = i + 1;
            continue;
        }
        if !check_module_filename(f) {
            proof {
                assert(ov.contains(f@)) by {
                    assert(ov[k] == f@);
                }
                assert(!discovered_ok(ov)) by {
                    assert(0 <= k < ov.len());
                    assert(ov[k] != aggregator_name());
                    assert(!valid_module_filename(ov[k]));
                }
            }
            let bad = copy_prefix(f, f.len());
            proof {
                assert(bad@ =~= f@);
            }
            return Err(DiscoveryError::MalformedName(bad));
        }
        proof {
            broadcast use group_to_multiset_ensures;

            assert(tokens_of(ov.take(k + 1)) == tokens_of(ov.take(k)).push(stem_of(ov[k])));
            assert(tokens_of(ov.take(k + 1)).to_multiset() =~= tokens_of(ov.take(k)).to_multiset().insert(
                stem_of(ov[k]),
            ));
        }
        let ghost toks0 = views_of(toks@);
        let t = copy_prefix(f, f.len() - 3);
        proof {
            assert(t@ =~= stem_of(ov[k]));
        }
        toks.push(t);
        i = i + 1;
        proof {
            broadcast use group_to_multiset_ensures;

            assert(views_of(toks@) =~= toks0.push(stem_of(ov[k])));
            assert(views_of(toks@).to_multiset() =~= toks0.to_multiset().insert(stem_of(ov[k])));
        }
    }
    proof {
        let ov = views_of(files@);
        assert(ov.take(ov.len() as int) =~= ov);
        assert(views_of(toks@).to_multiset() == tokens_of(ov).to_multiset());
        assert(discovered_ok(ov));
    }
    let sorted = sort_tokens(toks);
    Ok(MigrationRegistry { tokens: sorted })
}

/// One `mod` item line of the aggregator artifact.
pub open spec fn mod_line(t: Seq<u8>) -> Seq<u8> {
    "mod ".spec_bytes() + t + ";\n".spec_bytes()
}

/// The `mod` item lines for the given tokens, in order.
pub open spec fn mod_lines(toks: Seq<Seq<u8>>) -> Seq<u8>
    decreases toks.len(),
{
    if toks.len() == 0 {
        Seq::empty()
    } else {
        mod_lines(toks.drop_last()) + mod_line(toks.last())
    }
}

/// One entry of the registration list of the aggregator artifact.
pub open spec fn entry_line(t: Seq<u8>) -> Seq<u8> {
    "    ".spec_bytes() + t + ",\n".spec_bytes()
}

/// The registration list entries for the given tokens, in order.
pub open spec fn entry_lines(toks: Seq<Seq<u8>>) -> Seq<u8>
    decreases toks.len(),
{
    if toks.len() == 0 {
        Seq::empty()
    } else {
        entry_lines(toks.drop_last()) + entry_line(toks.last())
    }
}

/// The full aggregator artifact: a timestamp comment, one `mod` item per
/// module in registry order, and the registration list in the same order.
pub open spec fn aggregator_bytes(toks: Seq<Seq<u8>>, ts: Seq<u8>) -> Seq<u8> {
    "// ".spec_bytes() + ts + "\n".spec_bytes() + mod_lines(toks) + "registry [\n".spec_bytes()
        + entry_lines(toks) + "]\n".spec_bytes()
}

/// Renders the aggregator artifact for a registry.  The output is a pure
/// function of the registry's tokens and the timestamp, so regenerating
/// from an unchanged registry reproduces it byte for byte.
pub fn emit_aggregator(reg: &MigrationRegistry, ts: &Vec<u8>) -> (out: Vec<u8>)
    ensures
        out@ == aggregator_bytes(views_of(reg.tokens@), ts@),
{
    let ghost toks = views_of(reg.tokens@);
    let mut out: Vec<u8> = Vec::new();
    push_bytes(&mut out, "// ".as_bytes());
    push_bytes(&mut out, ts.as_slice());
    push_bytes(&mut out, "\n".as_bytes());
    let ghost header = "// ".spec_bytes() + ts@ + "\n".spec_bytes();
    proof {
        assert(out@ =~= header);
    }
    let mut i: usize = 0;
    while i < reg.tokens.len()
        invariant
            i <= reg.tokens@.len(),
            header == "// ".spec_bytes() + ts@ + "\n".spec_bytes(),
            toks == views_of(reg.tokens@),
            out@ =~= header + mod_lines(toks.take(i as int)),
        decreases reg.tokens@.len() - i,
    {
        let ghost k = i as int;
        push_bytes(&mut out, "mod ".as_bytes());
        push_bytes(&mut out, reg.tokens[i].as_slice());
        push_bytes(&mut out, ";\n".as_bytes());
        i = i + 1;
        proof {
            assert(toks.take(k + 1).drop_last() =~= toks.take(k));
            assert(toks.take(k + 1).last() == toks[k]);
            assert(mod_lines(toks.take(k + 1)) == mod_lines(toks.take(k)) + mod_line(toks[k]));
            assert(out@ =~= header + mod_lines(toks.take(k + 1)));
        }
    }
    proof {
        assert(toks.take(toks.len() as int) =~= toks);
    }
    push_bytes(&mut out, "registry [\n".as_bytes());
    let ghost mid = header + mod_lines(toks) + "registry [\n".spec_bytes();
    proof {
        assert(out@ =~= mid);
    }
    let mut i: usize = 0;
    while i < reg.tokens.len()
        invariant
            i <= reg.tokens@.len(),
            mid == header + mod_lines(toks) + "registry [\n".spec_bytes(),
            toks == views_of(reg.tokens@),
            out@ =~= mid + entry_lines(toks.take(i as int)),
        decreases reg.tokens@.len() - i,
    {
        let ghost k = i as int;
        push_bytes(&mut out, "    ".as_bytes());
        push_bytes(&mut out, reg.tokens[i].as_slice());
        push_bytes(&mut out, ",\n".as_bytes());
        i = i + 1;
        proof {
            assert(toks.take(k + 1).drop_last() =~= toks.take(k));
            assert(toks.take(k + 1).last() == toks[k]);
            assert(entry_lines(toks.take(k + 1)) == entry_lines(toks.take(k)) + entry_line(toks[k]));
            assert(out@ =~= mid + entry_lines(toks.take(k + 1)));
        }
    }
    push_bytes(&mut out, "]\n".as_bytes());
    proof {
        assert(toks.take(toks.len() as int) =~= toks);
        assert(out@ =~= aggregator_bytes(toks, ts@));
    }
    out
}

/// The ordering property of the registry: any two registries holding the
/// same tokens in ascending order are identical, so regeneration from the
/// same directory contents always produces the same order.
pub proof fn lemma_registry_order_deterministic(r1: MigrationRegistry, r2: MigrationRegistry)
    requires
        r1.wf(),
        r2.wf(),
        views_of(r1.tokens@).to_multiset() == views_of(r2.tokens@).to_multiset(),
    ensures
        views_of(r1.tokens@) == views_of(r2.tokens@),
{
    lemma_sorted_order_unique(views_of(r1.tokens@), views_of(r2.tokens@));
}

} // verus!
