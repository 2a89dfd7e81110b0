//! The module linker's decisions, as plain-value computations.
//!
//! From the set of generated output paths the linker derives every ancestor
//! directory that must hold a module-declaration file, regenerates each such
//! file's content from the directory's listing, and decides whether a root
//! wiring file already declares the generated module.  Re-running the linker
//! on the same outputs is a no-op: the regenerated contents are a pure
//! function of the listing (and ignore the module file itself), and the
//! wiring append happens only while the declaration is absent.

use vstd::prelude::*;
use vstd::string::StringExecFns;
use crate::chars::{chars_string, str_chars};
use crate::meta_lexer::{Lexer, MErrV, MStep, MetaLexError, m_step};
use crate::meta_scan::{lemma_m_step_progress, nx};
use crate::meta_token::{Keyword, MTokV, Token};
use crate::strutil::{ends_with, str_ends_with, str_eq, strs_view};

verus! {

/// The set of module directories, deduplicated by a hash set.  The set type
/// comes from an outside crate whose allocator parameter's bound is not
/// nameable here, so the whole struct is opaque and spoken of through
/// [`dirset_of`].
#[verifier::external_body]
pub struct DirSet {
    inner: hashbrown::HashSet<String>,
}

/// What a [`DirSet`] holds, as a set of character sequences.
pub uninterp spec fn dirset_of(s: DirSet) -> Set<Seq<char>>;

/// Relies on hashbrown::HashSet::new: a fresh set is empty.
#[verifier::external_body]
fn dirset_new() -> (r: DirSet)
    ensures
        dirset_of(r) == Set::<Seq<char>>::empty(),
{
    DirSet { inner: hashbrown::HashSet::new() }
}

/// Relies on hashbrown::HashSet::insert: afterwards the value is in the set,
/// nothing else changes, and the result says whether it was new.
#[verifier::external_body]
fn dirset_insert(s: &mut DirSet, v: String) -> (r: bool)
    ensures
        dirset_of(*final(s)) == dirset_of(*old(s)).insert(v@),
        r == !dirset_of(*old(s)).contains(v@),
{
    s.inner.insert(v)
}

/// Relies on hashbrown::HashSet::iter: every element is yielded exactly
/// once; no order is promised.
#[verifier::external_body]
fn dirset_items(s: &DirSet) -> (r: Vec<String>)
    ensures
        forall|k: int| 0 <= k < r@.len() ==> dirset_of(*s).contains(r@[k]@),
        forall|x: Seq<char>|
            dirset_of(*s).contains(x) ==> exists|k: int| 0 <= k < r@.len() && r@[k]@ == x,
        forall|a: int, b: int| 0 <= a < b < r@.len() ==> r@[a]@ != r@[b]@,
{
    s.inner.iter().cloned().collect()
}

/// The directories that must hold a module-declaration file, given the
/// generated files' relative paths: the root, and every ancestor directory
/// of a generated file (each path prefix that ends just before a
/// separator).
pub open spec fn sp_module_dirs(paths: Seq<Seq<char>>) -> Set<Seq<char>> {
    Set::new(
        |x: Seq<char>|
            x == Seq::<char>::empty() || exists|i: int, k: int|
                0 <= i < paths.len() && 0 <= k < paths[i].len() && paths[i][k] == '/' && x
                    == paths[i].subrange(0, k),
    )
}

/// Computes the distinct ancestor directories of the generated files'
/// relative paths, the root included, each exactly once and in no promised
/// order.
pub fn ancestor_modules(paths: &Vec<String>) -> (r: Vec<String>)
    ensures
        forall|k: int| 0 <= k < r@.len() ==> sp_module_dirs(strs_view(paths@)).contains(r@[k]@),
        forall|x: Seq<char>|
            sp_module_dirs(strs_view(paths@)).contains(x) ==> exists|k: int|
                0 <= k < r@.len() && r@[k]@ == x,
        forall|a: int, b: int| 0 <= a < b < r@.len() ==> r@[a]@ != r@[b]@,
{
    let ghost ps = strs_view(paths@);
    let mut ds = dirset_new();
    dirset_insert(&mut ds, String::new());
    proof {
        assert(dirset_of(ds) =~= Set::<Seq<char>>::empty().insert(Seq::<char>::empty()));
    }
    let n: usize = paths.len();
    let mut i: usize = 0;
    proof {
        assert(ps.len() == n);
        assert(dirset_of(ds) =~= Set::new(
            |x: Seq<char>|
                x == Seq::<char>::empty() || exists|a: int, k: int|
                    0 <= a < 0 && 0 <= k < ps[a].len() && ps[a][k] == '/' && x == ps[a].subrange(
                        0,
                        k,
                    ),
        ));
    }
    while i < n
        invariant
            n == paths@.len(),
            ps == strs_view(paths@),
            ps.len() == n,
            0 <= i <= n,
            dirset_of(ds) == Set::new(
                |x: Seq<char>|
                    x == Seq::<char>::empty() || exists|a: int, k: int|
                        0 <= a < i && 0 <= k < ps[a].len() && ps[a][k] == '/' && x == ps[a].subrange(0, k),
            ),
        decreases n - i,
    {
        let v = str_chars(paths[i].as_str());
        let m: usize = v.len();
        let mut k: usize = 0;
        proof {
            assert(v@ == ps[i as int]);
            assert(dirset_of(ds) =~= Set::new(
                |x: Seq<char>|
                    x == Seq::<char>::empty() || (exists|a: int, c: int|
                        0 <= a < i && 0 <= c < ps[a].len() && ps[a][c] == '/' && x == ps[a].subrange(0, c)) || (exists|c: int|
                        0 <= c < 0 && ps[i as int][c] == '/' && x == ps[i as int].subrange(0, c)),
            ));
        }
        while k < m
            invariant
                n == paths@.len(),
                ps == strs_view(paths@),
                ps.len() == n,
                0 <= i < n,
                v@ == ps[i as int],
                m == v@.len(),
                0 <= k <= m,
                dirset_of(ds) == Set::new(
                    |x: Seq<char>|
                        x == Seq::<char>::empty() || (exists|a: int, c: int|
                            0 <= a < i && 0 <= c < ps[a].len() && ps[a][c] == '/' && x == ps[a].subrange(0, c)) || (exists|c: int|
                            0 <= c < k && ps[i as int][c] == '/' && x == ps[i as int].subrange(
                                0,
                                c,
                            )),
                ),
            decreases m - k,
        {
            if v[k] == '/' {
                let prefix = chars_string(&v, 0, k);
                dirset_insert(&mut ds, prefix);
                proof {
                    assert(dirset_of(ds) =~= Set::new(
                        |x: Seq<char>|
                            x == Seq::<char>::empty() || (exists|a: int, c: int|
                                0 <= a < i && 0 <= c < ps[a].len() && ps[a][c] == '/' && x == ps[a].subrange(0, c)) || (exists|c: int|
                                0 <= c < k + 1 && ps[i as int][c] == '/' && x == ps[i as int].subrange(0, c)),
                    ));
                }
            } else {
                proof {
                    assert(dirset_of(ds) =~= Set::new(
                        |x: Seq<char>|
                            x == Seq::<char>::empty() || (exists|a: int, c: int|
                                0 <= a < i && 0 <= c < ps[a].len() && ps[a][c] == '/' && x == ps[a].subrange(0, c)) || (exists|c: int|
                                0 <= c < k + 1 && ps[i as int][c] == '/' && x == ps[i as int].subrange(0, c)),
                    ));
                }
            }
            k = k + 1;
        }
        i = i + 1;
        proof {
            assert(dirset_of(ds) =~= Set::new(
                |x: Seq<char>|
                    x == Seq::<char>::empty() || exists|a: int, c: int|
                        0 <= a < i && 0 <= c < ps[a].len() && ps[a][c] == '/' && x == ps[a].subrange(0, c),
            ));
        }
    }
    proof {
        assert(dirset_of(ds) =~= sp_module_dirs(ps));
    }
    dirset_items(&ds)
}

/// One entry of a directory listing, as plain values.
#[derive(Debug, Clone, PartialEq)]
pub struct DirEntry {
    pub name: String,
    pub is_dir: bool,
}

/// The mathematical image of a [`DirEntry`].
pub ghost struct DirEntryV {
    pub name: Seq<char>,
    pub is_dir: bool,
}

impl View for DirEntry {
    type V = DirEntryV;

    open spec fn view(&self) -> DirEntryV {
        DirEntryV { name: self.name@, is_dir: self.is_dir }
    }
}

/// The views of a listing.
pub open spec fn entries_view(v: Seq<DirEntry>) -> Seq<DirEntryV> {
    v.map_values(|e: DirEntry| e@)
}

/// The module-declaration line one entry contributes: one per subdirectory
/// and one per source file's stem, except the module file itself.
pub open spec fn sp_mod_line(e: DirEntryV) -> Seq<char> {
    if e.is_dir {
        "pub mod "@ + e.name + ";\n"@
    } else if ends_with(e.name, ".rs"@) && e.name.subrange(0, e.name.len() - 3) != "mod"@ {
        "pub mod "@ + e.name.subrange(0, e.name.len() - 3) + ";\n"@
    } else {
        Seq::empty()
    }
}

/// The whole module-declaration file for a listing, from entry `i` on, in
/// entry order.
pub open spec fn sp_mod_file(es: Seq<DirEntryV>, i: int) -> Seq<char>
    decreases es.len() - i,
{
    if i < 0 || i >= es.len() {
        Seq::empty()
    } else {
        sp_mod_line(es[i]) + sp_mod_file(es, i + 1)
    }
}

/// Regenerates a directory's module-declaration file from its listing.
pub fn mod_file_content(entries: &Vec<DirEntry>) -> (r: String)
    ensures
        r@ == sp_mod_file(entries_view(entries@), 0),
{
    let ghost ev = entries_view(entries@);
    let n: usize = entries.len();
    let mut out = String::new();
    let mut i: usize = 0;
    proof {
        assert(ev.len() == n);
        assert(out@ + sp_mod_file(ev, 0) =~= sp_mod_file(ev, 0));
    }
    while i < n
        invariant
            n == entries@.len(),
            ev == entries_view(entries@),
            ev.len() == n,
            0 <= i <= n,
            sp_mod_file(ev, 0) == out@ + sp_mod_file(ev, i as int),
        decreases n - i,
    {
        let ghost out0 = out@;
        proof {
            assert(ev[i as int] == entries@[i as int]@);
        }
        let e = &entries[i];
        if e.is_dir {
            out.append("pub mod ");
            out.append(e.name.as_str());
            out.append(";\n");
        } else if str_ends_with(e.name.as_str(), ".rs") {
            let v = str_chars(e.name.as_str());
            proof {
                reveal_strlit(".rs");
            }
            let stem_len = v.len() - 3;
            let stem = chars_string(&v, 0, stem_len);
            if !str_eq(stem.as_str(), "mod") {
                out.append("pub mod ");
                out.append(stem.as_str());
                out.append(";\n");
            }
        }
        i = i + 1;
        proof {
            assert(out@ + sp_mod_file(ev, i as int) =~= out0 + sp_mod_file(ev, i as int - 1));
        }
    }
    proof {
        assert(out@ =~= out@ + sp_mod_file(ev, n as int));
    }
    out
}

/// Shifting both listings in step leaves the generated file unchanged.
proof fn lemma_mod_file_shift(es1: Seq<DirEntryV>, i1: int, es2: Seq<DirEntryV>, i2: int)
    requires
        0 <= i1 <= es1.len(),
        0 <= i2 <= es2.len(),
        es1.len() - i1 == es2.len() - i2,
        forall|d: int| 0 <= d < es1.len() - i1 ==> #[trigger] es1[i1 + d] == es2[i2 + d],
    ensures
        sp_mod_file(es1, i1) == sp_mod_file(es2, i2),
    decreases es1.len() - i1,
{
    if i1 < es1.len() {
        assert(es1[i1 + 0] == es2[i2 + 0]);
        assert forall|d: int| 0 <= d < es1.len() - (i1 + 1) implies #[trigger] es1[(i1 + 1) + d]
            == es2[(i2 + 1) + d] by {
            assert(es1[i1 + (d + 1)] == es2[i2 + (d + 1)]);
        }
        lemma_mod_file_shift(es1, i1 + 1, es2, i2 + 1);
    }
}

/// Relisting a directory after its module-declaration file was created
/// yields byte-identical content: the module file's own entry contributes
/// nothing, wherever it appears in the listing.  Together with the content
/// being a pure function of the listing, this is the directory half of the
/// linker's idempotence.
pub proof fn lemma_mod_file_ignores_module_file(es: Seq<DirEntryV>, k: int, e: DirEntryV)
    requires
        0 <= k <= es.len(),
        !e.is_dir,
        e.name == "mod.rs"@,
    ensures
        sp_mod_file(es.insert(k, e), 0) == sp_mod_file(es, 0),
    decreases k,
{
    let ins = es.insert(k, e);
    reveal_strlit("mod.rs");
    reveal_strlit(".rs");
    reveal_strlit("mod");
    assert(e.name.subrange(3, 6) =~= ".rs"@);
    assert(ends_with(e.name, ".rs"@));
    assert(e.name.subrange(0, 3) =~= "mod"@);
    assert(sp_mod_line(e) =~= Seq::<char>::empty());
    if k == 0 {
        assert(ins[0] == e);
        assert(sp_mod_file(ins, 0) == sp_mod_line(e) + sp_mod_file(ins, 1));
        lemma_mod_file_shift(ins, 1, es, 0);
        assert(Seq::<char>::empty() + sp_mod_file(es, 0) =~= sp_mod_file(es, 0));
    } else {
        let es2 = es.drop_first();
        let ins2 = es2.insert(k - 1, e);
        assert(ins[0] == es[0]);
        lemma_mod_file_ignores_module_file(es2, k - 1, e);
        assert(ins.drop_first() =~= ins2);
        lemma_mod_file_shift(ins, 1, ins2, 0);
        lemma_mod_file_shift(es, 1, es2, 0);
    }
}

/// The syntax-aware declaration check from token `i` on: does the stream
/// hold the module keyword immediately followed by this module's name?
pub open spec fn sp_mod_exists(s: Seq<char>, i: int, m: Seq<char>) -> Result<bool, MErrV>
    decreases s.len() - i, 0int,
{
    if i < 0 || i > s.len() {
        Ok(false)
    } else {
        match m_step(s, i) {
            MStep::Fail { e } => Err(e),
            MStep::Tok { t, j } => {
                if t is EOF {
                    Ok(false)
                } else if t == MTokV::Keyword(Keyword::Mod) {
                    sp_after_mod_kw(s, nx(j, i, s.len() as int), m)
                } else {
                    sp_mod_exists(s, nx(j, i, s.len() as int), m)
                }
            },
        }
    }
}

/// After the module keyword: look at the next token without consuming it;
/// only the sought name settles the check.
pub open spec fn sp_after_mod_kw(s: Seq<char>, i: int, m: Seq<char>) -> Result<bool, MErrV>
    decreases s.len() - i, 1int,
{
    if i < 0 || i > s.len() {
        Ok(false)
    } else {
        match m_step(s, i) {
            MStep::Fail { e } => Err(e),
            MStep::Tok { t, j } => match t {
                MTokV::Ident(name) => if name == m {
                    Ok(true)
                } else {
                    sp_mod_exists(s, i, m)
                },
                _ => sp_mod_exists(s, i, m),
            },
        }
    }
}

/// Whether the source text already declares the module: a syntax-aware scan
/// of its own token stream, not a substring search.
#[verifier::loop_isolation(false)]
#[verifier::rlimit(100)]
pub fn mod_exists(contents: String, module: &str) -> (r: Result<bool, MetaLexError>)
    ensures
        match r {
            Ok(b) => sp_mod_exists(contents@, 0, module@) == Ok::<bool, MErrV>(b),
            Err(e) => sp_mod_exists(contents@, 0, module@) == Err::<bool, MErrV>(e@),
        },
{
    let ghost s = contents@;
    let mut lexer = Lexer::new(contents);
    proof {
        lemma_m_step_progress(s, 0);
    }
    let mut cur = match lexer.next() {
        Ok(Some(t)) => t,
        Ok(None) => {
            proof {
                assert(false);
            }
            unreached()
        },
        Err(e) => {
            return Err(e);
        },
    };
    let ghost mut pc: int = 0;
    loop
        invariant
            lexer@.input == s,
            0 <= pc <= s.len(),
            pc <= lexer@.pos <= s.len(),
            lexer@.revert == Seq::<MTokV>::empty(),
            lexer@.done == false || cur@ is EOF,
            m_step(s, pc) == (MStep::Tok { t: cur@, j: lexer@.pos as int }),
            sp_mod_exists(s, 0, module@) == sp_mod_exists(s, pc, module@),
        decreases s.len() - pc,
    {
        match cur {
            Token::EOF => {
                return Ok(false);
            },
            Token::Keyword(Keyword::Mod) => {
                proof {
                    lemma_m_step_progress(s, pc);
                }
                let ghost pk: int = lexer@.pos;
                proof {
                    assert(sp_mod_exists(s, pc, module@) == sp_after_mod_kw(s, pk, module@));
                    lemma_m_step_progress(s, pk);
                }
                let nxt = match lexer.next() {
                    Ok(Some(t)) => t,
                    Ok(None) => {
                        proof {
                            assert(false);
                        }
                        unreached()
                    },
                    Err(e) => {
                        return Err(e);
                    },
                };
                match nxt {
                    Token::Ident(name) => {
                        if str_eq(name.as_str(), module) {
                            return Ok(true);
                        }
                        proof {
                            assert(sp_after_mod_kw(s, pk, module@) == sp_mod_exists(
                                s,
                                pk,
                                module@,
                            ));
                            assert(sp_mod_exists(s, pk, module@) == sp_mod_exists(
                                s,
                                lexer@.pos,
                                module@,
                            ));
                            lemma_m_step_progress(s, lexer@.pos);
                        }
                        let ghost pn: int = lexer@.pos;
                        cur = match lexer.next() {
                            Ok(Some(t)) => t,
                            Ok(None) => {
                                proof {
                                    assert(false);
                                }
                                unreached()
                            },
                            Err(e) => {
                                return Err(e);
                            },
                        };
                        proof {
                            pc = pn;
                        }
                    },
                    other => {
                        proof {
                            assert(sp_after_mod_kw(s, pk, module@) == sp_mod_exists(
                                s,
                                pk,
                                module@,
                            ));
                        }
                        cur = other;
                        proof {
                            pc = pk;
                        }
                    },
                }
            },
            _ => {
                proof {
                    lemma_m_step_progress(s, pc);
                    assert(sp_mod_exists(s, pc, module@) == sp_mod_exists(
                        s,
                        lexer@.pos,
                        module@,
                    ));
                    lemma_m_step_progress(s, lexer@.pos);
                }
                let ghost pn: int = lexer@.pos;
                cur = match lexer.next() {
                    Ok(Some(t)) => t,
                    Ok(None) => {
                        proof {
                            assert(false);
                        }
                        unreached()
                    },
                    Err(e) => {
                        return Err(e);
                    },
                };
                proof {
                    pc = pn;
                }
            },
        }
    }
}

/// The wiring decision for a root file: `None` when the module is already
/// declared, else the contents with the declaration appended.  Applying the
/// decision to its own output appends nothing again, which is the wiring
/// half of the linker's idempotence.
pub fn ensure_module_decl(contents: String, module: &str) -> (r: Result<
    Option<String>,
    MetaLexError,
>)
    ensures
        match r {
            Ok(None) => sp_mod_exists(contents@, 0, module@) == Ok::<bool, MErrV>(true),
            Ok(Some(updated)) => sp_mod_exists(contents@, 0, module@) == Ok::<bool, MErrV>(false)
                && updated@ == contents@ + "\npub mod "@ + module@ + ";\n"@,
            Err(e) => sp_mod_exists(contents@, 0, module@) == Err::<bool, MErrV>(e@),
        },
{
    let ghost s = contents@;
    let copy = contents.clone();
    match mod_exists(copy, module) {
        Ok(true) => Ok(None),
        Ok(false) => {
            let mut updated = contents;
            updated.append("\npub mod ");
            updated.append(module);
            updated.append(";\n");
            proof {
                assert(updated@ =~= s + "\npub mod "@ + module@ + ";\n"@);
            }
            Ok(Some(updated))
        },
        Err(e) => Err(e),
    }
}

} // verus!
