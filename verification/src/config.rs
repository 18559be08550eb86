use vstd::prelude::*;

verus! {

/// Options controlling Verilog emission.
#[derive(Debug, Clone, Copy, PartialEq, Eq, Structural)]
pub struct EmitOptions {
    /// Validate the module definition before emitting Verilog.
    pub validate: bool,
    /// Emit each bit of a continuous assignment as a separate assignment.
    pub bitblast_assignments: bool,
    /// Preserve a single-bit slice such as `x[2:2]` instead of simplifying it to `x[2]`.
    pub preserve_single_bit_slices: bool,
    /// Preserve a full-width slice such as `x[3:0]` instead of simplifying it to `x`.
    pub preserve_full_width_slices: bool,
}

impl Default for EmitOptions {
    /// Validation on; every simplification of the output allowed.
    fn default() -> (r: EmitOptions)
        ensures
            r == (EmitOptions {
                validate: true,
                bitblast_assignments: false,
                preserve_single_bit_slices: false,
                preserve_full_width_slices: false,
            }),
    {
        EmitOptions {
            validate: true,
            bitblast_assignments: false,
            preserve_single_bit_slices: false,
            preserve_full_width_slices: false,
        }
    }
}

/// How a connection is pipelined: the clock that drives the stages, the
/// number of stages, and optionally the name of the pipeline instance.
#[derive(Debug, Clone)]
pub struct PipelineConfig {
    pub clk: String,
    pub depth: usize,
    pub inst_name: Option<String>,
}

impl Default for PipelineConfig {
    /// Clocked by `clk`, with no stages and a generated instance name.
    fn default() -> (r: PipelineConfig)
        ensures
            r.clk@ == "clk"@,
            r.depth == 0,
            r.inst_name is None,
    {
        PipelineConfig { clk: "clk".to_owned(), depth: 0, inst_name: None }
    }
}

/// Settings handed to the Verilog front end.
#[derive(Debug)]
pub struct ParserConfig<'a> {
    pub sources: &'a [&'a str],
    pub tops: &'a [&'a str],
    pub incdirs: &'a [&'a str],
    pub defines: &'a [(&'a str, &'a str)],
    pub parameters: &'a [(&'a str, &'a str)],
    pub libfiles: &'a [&'a str],
    pub libdirs: &'a [&'a str],
    pub libexts: &'a [&'a str],
    pub ignore_unknown_modules: bool,
    pub ignore_protected: bool,
    pub timescale: Option<&'a str>,
    pub skip_unsupported: bool,
    pub include_hierarchy: bool,
    pub extra_arguments: &'a [&'a str],
}

/// An owned copy of a `ParserConfig`, usable as a key.
#[derive(Clone, Debug, Eq, Hash, PartialEq)]
pub struct ParserConfigOwnedKey {
    pub sources: Vec<String>,
    pub tops: Vec<String>,
    pub incdirs: Vec<String>,
    pub defines: Vec<(String, String)>,
    pub parameters: Vec<(String, String)>,
    pub libfiles: Vec<String>,
    pub libdirs: Vec<String>,
    pub libexts: Vec<String>,
    pub ignore_unknown_modules: bool,
    pub ignore_protected: bool,
    pub timescale: Option<String>,
    pub skip_unsupported: bool,
    pub include_hierarchy: bool,
    pub extra_arguments: Vec<String>,
}

/// The texts of borrowed strings.
pub open spec fn str_texts(s: Seq<&str>) -> Seq<Seq<char>> {
    s.map_values(|x: &str| x@)
}

/// The texts of owned strings.
pub open spec fn string_texts(s: Seq<String>) -> Seq<Seq<char>> {
    s.map_values(|x: String| x@)
}

/// The texts of borrowed string pairs.
pub open spec fn str_pair_texts(s: Seq<(&str, &str)>) -> Seq<(Seq<char>, Seq<char>)> {
    s.map_values(|x: (&str, &str)| (x.0@, x.1@))
}

/// The texts of owned string pairs.
pub open spec fn string_pair_texts(s: Seq<(String, String)>) -> Seq<(Seq<char>, Seq<char>)> {
    s.map_values(|x: (String, String)| (x.0@, x.1@))
}

/// Owned copies of `items`.
fn own_all(items: &[&str]) -> (r: Vec<String>)
    ensures
        string_texts(r@) == str_texts(items@),
{
    let mut out: Vec<String> = Vec::new();
    for k in 0..items.len()
        invariant
            out@.len() == k,
            string_texts(out@) == str_texts(items@.take(k as int)),
    {
        let item: &str = items[k];
        let owned = item.to_owned();
        let ghost before = out@;
        out.push(owned);
        proof {
            let prev = items@.take(k as int);
            let next = items@.take(k + 1);
            assert(next =~= prev.push(items@[k as int]));
            assert(out@ =~= before.push(owned));
            assert forall|j: int| 0 <= j < next.len() implies string_texts(out@)[j] == str_texts(next)[j] by {
                if j < k {
                    assert(string_texts(before)[j] == str_texts(prev)[j]);
                    assert(out@[j] == before[j]);
                    assert(next[j] == prev[j]);
                } else {
                    assert(out@[j] == owned);
                    assert(owned@ == item@);
                    assert(next[j] == item);
                }
            }
            assert(string_texts(out@) =~= str_texts(next));
        }
    }
    assert(items@.take(items@.len() as int) =~= items@);
    out
}

/// Owned copies of the pairs in `items`.
fn own_all_pairs(items: &[(&str, &str)]) -> (r: Vec<(String, String)>)
    ensures
        string_pair_texts(r@) == str_pair_texts(items@),
{
    let mut out: Vec<(String, String)> = Vec::new();
    for k in 0..items.len()
        invariant
            out@.len() == k,
            string_pair_texts(out@) == str_pair_texts(items@.take(k as int)),
    {
        let (a, b) = items[k];
        let owned = (a.to_owned(), b.to_owned());
        let ghost before = out@;
        out.push(owned);
        proof {
            let prev = items@.take(k as int);
            let next = items@.take(k + 1);
            assert(next =~= prev.push(items@[k as int]));
            assert(out@ =~= before.push(owned));
            assert forall|j: int| 0 <= j < next.len() implies string_pair_texts(out@)[j] == str_pair_texts(next)[j] by {
                if j < k {
                    assert(string_pair_texts(before)[j] == str_pair_texts(prev)[j]);
                    assert(out@[j] == before[j]);
                    assert(next[j] == prev[j]);
                } else {
                    assert(out@[j] == owned);
                    assert(next[j] == (a, b));
                }
            }
            assert(string_pair_texts(out@) =~= str_pair_texts(next));
        }
    }
    assert(items@.take(items@.len() as int) =~= items@);
    out
}

impl<'a> ParserConfig<'a> {
    /// An owned copy holding the same texts and flags.
    pub fn to_owned_key(&self) -> (r: ParserConfigOwnedKey)
        ensures
            string_texts(r.sources@) == str_texts(self.sources@),
            string_texts(r.tops@) == str_texts(self.tops@),
            string_texts(r.incdirs@) == str_texts(self.incdirs@),
            string_pair_texts(r.defines@) == str_pair_texts(self.defines@),
            string_pair_texts(r.parameters@) == str_pair_texts(self.parameters@),
            string_texts(r.libfiles@) == str_texts(self.libfiles@),
            string_texts(r.libdirs@) == str_texts(self.libdirs@),
            string_texts(r.libexts@) == str_texts(self.libexts@),
            r.ignore_unknown_modules == self.ignore_unknown_modules,
            r.ignore_protected == self.ignore_protected,
            r.timescale is Some <==> self.timescale is Some,
            r.timescale matches Some(t) ==> t@ == self.timescale->0@,
            r.skip_unsupported == self.skip_unsupported,
            r.include_hierarchy == self.include_hierarchy,
            string_texts(r.extra_arguments@) == str_texts(self.extra_arguments@),
    {
        ParserConfigOwnedKey {
            sources: own_all(self.sources),
            tops: own_all(self.tops),
            incdirs: own_all(self.incdirs),
            defines: own_all_pairs(self.defines),
            parameters: own_all_pairs(self.parameters),
            libfiles: own_all(self.libfiles),
            libdirs: own_all(self.libdirs),
            libexts: own_all(self.libexts),
            ignore_unknown_modules: self.ignore_unknown_modules,
            ignore_protected: self.ignore_protected,
            timescale: match self.timescale {
                Some(t) => Some(t.to_owned()),
                None => None,
            },
            skip_unsupported: self.skip_unsupported,
            include_hierarchy: self.include_hierarchy,
            extra_arguments: own_all(self.extra_arguments),
        }
    }
}

impl<'a> Default for ParserConfig<'a> {
    /// No sources or options; unknown modules and protected regions are
    /// ignored.
    fn default() -> (r: ParserConfig<'a>)
        ensures
            r.sources@.len() == 0,
            r.tops@.len() == 0,
            r.incdirs@.len() == 0,
            r.defines@.len() == 0,
            r.parameters@.len() == 0,
            r.libfiles@.len() == 0,
            r.libdirs@.len() == 0,
            r.libexts@.len() == 0,
            r.ignore_unknown_modules,
            r.ignore_protected,
            r.timescale is None,
            !r.skip_unsupported,
            !r.include_hierarchy,
            r.extra_arguments@.len() == 0,
    {
        ParserConfig {
            sources: &[],
            tops: &[],
            incdirs: &[],
            defines: &[],
            parameters: &[],
            libfiles: &[],
            libdirs: &[],
            libexts: &[],
            ignore_unknown_modules: true,
            ignore_protected: true,
            timescale: None,
            skip_unsupported: false,
            include_hierarchy: false,
            extra_arguments: &[],
        }
    }
}

/// A package parameter and its value as written in the source.
#[derive(Debug, PartialEq)]
pub struct Parameter {
    pub name: String,
    pub value: String,
}

/// A package: its name and its parameters, which have distinct names.
#[derive(Debug, PartialEq)]
pub struct Package {
    pub name: String,
    pub parameters: Vec<Parameter>,
}

/// The position of the parameter named `key` among `params`, if any.
pub open spec fn find_parameter(params: Seq<Parameter>, key: Seq<char>) -> Option<int>
    decreases params.len(),
{
    if params.len() == 0 {
        None
    } else {
        match find_parameter(params.drop_last(), key) {
            Some(i) => Some(i),
            None => if params.last().name@ == key {
                Some(params.len() - 1)
            } else {
                None
            },
        }
    }
}

proof fn lemma_find_parameter(params: Seq<Parameter>, key: Seq<char>)
    ensures
        find_parameter(params, key) matches Some(i) ==> 0 <= i < params.len() && params[i].name@
            == key && forall|j: int| 0 <= j < i ==> params[j].name@ != key,
        find_parameter(params, key) is None ==> forall|j: int|
            0 <= j < params.len() ==> params[j].name@ != key,
    decreases params.len(),
{
    if params.len() > 0 {
        let init = params.drop_last();
        lemma_find_parameter(init, key);
        assert forall|j: int| 0 <= j < params.len() - 1 implies #[trigger] params[j] == init[j] by {}
        match find_parameter(init, key) {
            Some(i) => {
                assert(params[i] == init[i]);
            },
            None => {
                assert forall|j: int| 0 <= j < params.len() - 1 implies #[trigger] params[j].name@ != key by {
                    assert(params[j] == init[j]);
                }
            },
        }
    }
}

impl Package {
    /// The parameter names are distinct.
    pub open spec fn wf(&self) -> bool {
        forall|i: int, j: int|
            0 <= i < j < self.parameters@.len() ==> self.parameters@[i].name@
                != self.parameters@[j].name@
    }

    /// The parameter named `key`, or `None` if the package has none.
    pub fn get(&self, key: &str) -> (r: Option<&Parameter>)
        ensures
            match find_parameter(self.parameters@, key@) {
                Some(i) => r == Some(&self.parameters@[i]),
                None => r is None,
            },
    {
        let k = key.to_owned();
        let n = self.parameters.len();
        proof {
            lemma_find_parameter(self.parameters@, key@);
        }
        for i in 0..n
            invariant
                n == self.parameters@.len(),
                k@ == key@,
                forall|j: int| 0 <= j < i ==> self.parameters@[j].name@ != key@,
        {
            if self.parameters[i].name == k {
                proof {
                    lemma_find_parameter(self.parameters@, key@);
                }
                return Some(&self.parameters[i]);
            }
        }
        None
    }
}

} // verus!
