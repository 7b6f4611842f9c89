//! The builder that configures a code-generation run.
use vstd::prelude::*;
use crate::ast::copy_string;
use crate::builtin::{BuiltInFuncDef, DefV, copy_def, def_v, defs_model, plain_def, plain_def_v};
use crate::keyed::{gk_index, gk_insert, gk_lookup, lemma_gk_insert_lookup, keyed_contains, keyed_insert, keyed_insert_exec, keys_sorted,
    lemma_keyed_insert_sorted, lemma_kv_insert};
use crate::text::string_of;

verus! {

/// Settings of a generation run: where the `.ftl` files are, which locale
/// is the schema authority, where the generated module is included and
/// written, and the registered built-in functions.
pub struct Config {
    locales_dir: String,
    primary: String,
    mod_path: String,
    output_path: Option<String>,
    builtins: Vec<(String, BuiltInFuncDef)>,
}

/// The model of a [`Config`].
pub struct ConfigV {
    pub locales_dir: Seq<char>,
    pub primary: Seq<char>,
    pub mod_path: Seq<char>,
    pub output_path: Option<Seq<char>>,
    /// Registered built-ins, keyed by FTL name.
    pub builtins: Seq<(String, BuiltInFuncDef)>,
}

impl View for Config {
    type V = ConfigV;

    closed spec fn view(&self) -> ConfigV {
        ConfigV {
            locales_dir: self.locales_dir@,
            primary: self.primary@,
            mod_path: self.mod_path@,
            output_path: crate::ast::opt_str_v(self.output_path),
            builtins: self.builtins@,
        }
    }
}

impl Config {
    /// The registered built-ins are keyed by distinct names, in ascending order.
    #[verifier::type_invariant]
    spec fn builtins_sorted(&self) -> bool {
        keys_sorted(self.builtins@)
    }
}

/// `m` with `k` bound to `d` unless `k` is bound already.
pub open spec fn or_insert(m: Seq<(Seq<char>, DefV)>, k: Seq<char>, d: DefV) -> Seq<(Seq<char>, DefV)> {
    if gk_index(m, k) is Some { m } else { gk_insert(m, k, d) }
}

/// The registry with `NUMBER` and `DATETIME` added when absent.
pub open spec fn with_defaults(m: Seq<(Seq<char>, DefV)>) -> Seq<(Seq<char>, DefV)> {
    or_insert(or_insert(m, "NUMBER"@, plain_def_v("NUMBER"@, "Number"@)), "DATETIME"@,
        plain_def_v("DATETIME"@, "DateTime"@))
}

/// The built-ins handed to code generation: a registered function keeps its
/// definition, `NUMBER` and `DATETIME` are always there (with their default
/// definitions unless registered), and no other name appears.
pub proof fn lemma_with_defaults_lookup(m: Seq<(Seq<char>, DefV)>, q: Seq<char>)
    ensures
        gk_lookup(with_defaults(m), q) == (match gk_lookup(m, q) {
            Some(d) => Some(d),
            None => if q == "NUMBER"@ {
                Some(plain_def_v("NUMBER"@, "Number"@))
            } else if q == "DATETIME"@ {
                Some(plain_def_v("DATETIME"@, "DateTime"@))
            } else {
                None
            },
        }),
{
    reveal_strlit("NUMBER");
    reveal_strlit("DATETIME");
    let n = plain_def_v("NUMBER"@, "Number"@);
    let d = plain_def_v("DATETIME"@, "DateTime"@);
    let m1 = or_insert(m, "NUMBER"@, n);
    if gk_index(m, "NUMBER"@) is None {
        lemma_gk_insert_lookup(m, "NUMBER"@, n, q);
        lemma_gk_insert_lookup(m, "NUMBER"@, n, "DATETIME"@);
    }
    assert(gk_lookup(m1, q) == (if gk_lookup(m, q) is None && q == "NUMBER"@ { Some(n) } else { gk_lookup(m, q) }));
    assert(gk_lookup(m1, "DATETIME"@) == gk_lookup(m, "DATETIME"@));
    if gk_index(m1, "DATETIME"@) is None {
        lemma_gk_insert_lookup(m1, "DATETIME"@, d, q);
    }
}

/// A configuration with the defaults: locales under `locales`, primary
/// locale `en-US`, the generated module included at the crate root, no
/// output path, and no registered built-ins.
pub fn generator() -> (res: Config)
    ensures
        res@.locales_dir == "locales"@,
        res@.primary == "en-US"@,
        res@.mod_path == Seq::<char>::empty(),
        res@.output_path is None,
        res@.builtins == Seq::<(String, BuiltInFuncDef)>::empty(),
{
    let res = Config {
        locales_dir: string_of("locales"),
        primary: string_of("en-US"),
        mod_path: String::new(),
        output_path: None,
        builtins: Vec::new(),
    };
    assert(res@.builtins =~= Seq::<(String, BuiltInFuncDef)>::empty());
    res
}

impl Config {
    /// Directory containing the `.ftl` locale files.
    pub fn locales_dir(self, path: &str) -> (res: Self)
        ensures
            res@ == (ConfigV { locales_dir: path@, ..self@ }),
    {
        proof {
            use_type_invariant(&self);
        }
        let Config { locales_dir: _, primary, mod_path, output_path, builtins } = self;
        Config { locales_dir: string_of(path), primary, mod_path, output_path, builtins }
    }

    /// Primary locale, the one whose messages every other locale must follow.
    pub fn default_lang(self, lang: &str) -> (res: Self)
        ensures
            res@ == (ConfigV { primary: lang@, ..self@ }),
    {
        proof {
            use_type_invariant(&self);
        }
        let Config { locales_dir, primary: _, mod_path, output_path, builtins } = self;
        Config { locales_dir, primary: string_of(lang), mod_path, output_path, builtins }
    }

    /// Module path under `$crate` where the generated code is included.
    pub fn mod_path(self, path: &str) -> (res: Self)
        ensures
            res@ == (ConfigV { mod_path: path@, ..self@ }),
    {
        proof {
            use_type_invariant(&self);
        }
        let Config { locales_dir, primary, mod_path: _, output_path, builtins } = self;
        Config { locales_dir, primary, mod_path: string_of(path), output_path, builtins }
    }

    /// Output file of the generated Rust module.
    pub fn output_path(self, path: &str) -> (res: Self)
        ensures
            res@ == (ConfigV { output_path: Some(path@), ..self@ }),
    {
        proof {
            use_type_invariant(&self);
        }
        let Config { locales_dir, primary, mod_path, output_path: _, builtins } = self;
        Config { locales_dir, primary, mod_path, output_path: Some(string_of(path)), builtins }
    }

    /// Registers a built-in function under its FTL name, replacing an
    /// earlier one of the same name.
    pub fn register(self, def: BuiltInFuncDef) -> (res: Self)
        ensures
            res@ == (ConfigV { builtins: keyed_insert(self@.builtins, def.name, def), ..self@ }),
            keys_sorted(res@.builtins),
    {
        proof {
            use_type_invariant(&self);
            lemma_keyed_insert_sorted(self.builtins@, def.name, def);
        }
        let Config { locales_dir, primary, mod_path, output_path, mut builtins } = self;
        let name = def.name.clone();
        keyed_insert_exec(&mut builtins, name, def);
        Config { locales_dir, primary, mod_path, output_path, builtins }
    }

    /// The registered built-ins, with `NUMBER` and `DATETIME` always present
    /// (a registered definition of either is kept).
    pub fn get_builtins(&self) -> (res: Vec<(String, BuiltInFuncDef)>)
        ensures
            defs_model(res@) == with_defaults(defs_model(self@.builtins)),
            keys_sorted(res@),
    {
        proof {
            use_type_invariant(self);
        }
        let mut res: Vec<(String, BuiltInFuncDef)> = Vec::new();
        let mut i: usize = 0;
        while i < self.builtins.len()
            invariant
                keys_sorted(self.builtins@),
                i <= self.builtins@.len(),
                res@.len() == i,
                forall|j: int| 0 <= j < i ==> (#[trigger] res@[j]).0@ == self.builtins@[j].0@
                    && def_v(res@[j].1) == def_v(self.builtins@[j].1),
            decreases self.builtins@.len() - i,
        {
            let k = copy_string(&self.builtins[i].0);
            let d = copy_def(&self.builtins[i].1);
            res.push((k, d));
            i += 1;
        }
        assert(defs_model(res@) =~= defs_model(self.builtins@));
        assert(keys_sorted(res@));
        let ghost m0 = defs_model(res@);
        if !keyed_contains(&res, "NUMBER") {
            let k = string_of("NUMBER");
            let d = plain_def("NUMBER", "Number");
            proof {
                lemma_keyed_insert_sorted(res@, k, d);
                lemma_kv_insert(res@, |d: BuiltInFuncDef| def_v(d), k, d);
                crate::keyed::lemma_kv_index(res@, |d: BuiltInFuncDef| def_v(d), k@);
            }
            keyed_insert_exec(&mut res, k, d);
        } else {
            proof {
                crate::keyed::lemma_kv_index(res@, |d: BuiltInFuncDef| def_v(d), "NUMBER"@);
            }
        }
        assert(defs_model(res@) == or_insert(m0, "NUMBER"@, plain_def_v("NUMBER"@, "Number"@)));
        let ghost m1 = defs_model(res@);
        if !keyed_contains(&res, "DATETIME") {
            let k = string_of("DATETIME");
            let d = plain_def("DATETIME", "DateTime");
            proof {
                lemma_keyed_insert_sorted(res@, k, d);
                lemma_kv_insert(res@, |d: BuiltInFuncDef| def_v(d), k, d);
                crate::keyed::lemma_kv_index(res@, |d: BuiltInFuncDef| def_v(d), k@);
            }
            keyed_insert_exec(&mut res, k, d);
        } else {
            proof {
                crate::keyed::lemma_kv_index(res@, |d: BuiltInFuncDef| def_v(d), "DATETIME"@);
            }
        }
        assert(defs_model(res@) == or_insert(m1, "DATETIME"@, plain_def_v("DATETIME"@, "DateTime"@)));
        res
    }

    /// The directory of the `.ftl` files.
    pub fn locales_path(&self) -> (res: &str)
        ensures
            res@ == self@.locales_dir,
    {
        self.locales_dir.as_str()
    }

    /// The primary locale.
    pub fn primary_lang(&self) -> (res: &str)
        ensures
            res@ == self@.primary,
    {
        self.primary.as_str()
    }

    /// The module path of the generated code.
    pub fn module(&self) -> (res: &str)
        ensures
            res@ == self@.mod_path,
    {
        self.mod_path.as_str()
    }

    /// The output file, when one was set.
    pub fn output(&self) -> (res: Option<&str>)
        ensures
            match res {
                Some(p) => self@.output_path == Some(p@),
                None => self@.output_path is None,
            },
    {
        match &self.output_path {
            Some(p) => Some(p.as_str()),
            None => None,
        }
    }
}

} // verus!
