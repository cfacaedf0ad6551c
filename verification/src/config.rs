//! Plain data carried into each operating mode: input roots, catalog paths
//! and the optional erase criteria. Paths are held as plain strings; the
//! surrounding command-line layer owns parsing and filesystem access.

use vstd::prelude::*;

verus! {

/// Mathematical value of arguments that pair a list of input paths with one
/// output path (the build, append and merge modes).
#[verifier::ext_equal]
pub struct ListArgsView {
    pub input: Seq<Seq<char>>,
    pub output: Seq<char>,
}

/// Mathematical value of the erase arguments.
#[verifier::ext_equal]
pub struct EraseArgsView {
    pub target: Seq<char>,
    pub directory: Option<Seq<char>>,
    pub sakura_name: Option<Seq<char>>,
    pub kero_name: Option<Seq<char>>,
}

/// Arguments of the append mode: directory roots to scan and the catalog
/// path that is both read and rewritten.
pub struct AppendArgs {
    input: Vec<String>,
    output: String,
}

/// Arguments of the build mode: directory roots to scan and the catalog
/// path that is overwritten.
pub struct BuildArgs {
    input: Vec<String>,
    output: String,
}

/// Arguments of the erase mode: the catalog path to rewrite and up to three
/// independent removal criteria.
pub struct EraseArgs {
    target: String,
    directory: Option<String>,
    sakura_name: Option<String>,
    kero_name: Option<String>,
}

/// Arguments of the merge mode: catalog paths to read and the catalog path
/// that is written.
pub struct MergeArgs {
    input: Vec<String>,
    output: String,
}

impl View for AppendArgs {
    type V = ListArgsView;

    closed spec fn view(&self) -> ListArgsView {
        ListArgsView { input: self.input.deep_view(), output: self.output@ }
    }
}

impl View for BuildArgs {
    type V = ListArgsView;

    closed spec fn view(&self) -> ListArgsView {
        ListArgsView { input: self.input.deep_view(), output: self.output@ }
    }
}

impl View for MergeArgs {
    type V = ListArgsView;

    closed spec fn view(&self) -> ListArgsView {
        ListArgsView { input: self.input.deep_view(), output: self.output@ }
    }
}

impl View for EraseArgs {
    type V = EraseArgsView;

    closed spec fn view(&self) -> EraseArgsView {
        EraseArgsView {
            target: self.target@,
            directory: match self.directory {
                Some(s) => Some(s@),
                None => None,
            },
            sakura_name: match self.sakura_name {
                Some(s) => Some(s@),
                None => None,
            },
            kero_name: match self.kero_name {
                Some(s) => Some(s@),
                None => None,
            },
        }
    }
}

impl AppendArgs {
    pub fn new(input: Vec<String>, output: String) -> (r: AppendArgs)
        ensures
            r@ == (ListArgsView { input: input.deep_view(), output: output@ }),
    {
        AppendArgs { input, output }
    }

    pub fn input(&self) -> (r: &Vec<String>)
        ensures
            r.deep_view() == self@.input,
    {
        &self.input
    }

    pub fn output(&self) -> (r: &String)
        ensures
            r@ == self@.output,
    {
        &self.output
    }
}

impl BuildArgs {
    pub fn new(input: Vec<String>, output: String) -> (r: BuildArgs)
        ensures
            r@ == (ListArgsView { input: input.deep_view(), output: output@ }),
    {
        BuildArgs { input, output }
    }

    pub fn input(&self) -> (r: &Vec<String>)
        ensures
            r.deep_view() == self@.input,
    {
        &self.input
    }

    pub fn output(&self) -> (r: &String)
        ensures
            r@ == self@.output,
    {
        &self.output
    }
}

impl EraseArgs {
    pub fn new(
        target: String,
        directory: Option<String>,
        sakura_name: Option<String>,
        kero_name: Option<String>,
    ) -> (r: EraseArgs)
        ensures
            r@.target == target@,
            r@.directory == (match directory {
                Some(s) => Some(s@),
                None => None::<Seq<char>>,
            }),
            r@.sakura_name == (match sakura_name {
                Some(s) => Some(s@),
                None => None::<Seq<char>>,
            }),
            r@.kero_name == (match kero_name {
                Some(s) => Some(s@),
                None => None::<Seq<char>>,
            }),
    {
        EraseArgs { target, directory, sakura_name, kero_name }
    }

    pub fn target(&self) -> (r: &String)
        ensures
            r@ == self@.target,
    {
        &self.target
    }

    pub fn directory(&self) -> (r: Option<&String>)
        ensures
            match r {
                Some(s) => self@.directory == Some(s@),
                None => self@.directory is None,
            },
    {
        self.directory.as_ref()
    }

    pub fn sakura_name(&self) -> (r: Option<&String>)
        ensures
            match r {
                Some(s) => self@.sakura_name == Some(s@),
                None => self@.sakura_name is None,
            },
    {
        self.sakura_name.as_ref()
    }

    pub fn kero_name(&self) -> (r: Option<&String>)
        ensures
            match r {
                Some(s) => self@.kero_name == Some(s@),
                None => self@.kero_name is None,
            },
    {
        self.kero_name.as_ref()
    }
}

impl MergeArgs {
    pub fn new(input: Vec<String>, output: String) -> (r: MergeArgs)
        ensures
            r@ == (ListArgsView { input: input.deep_view(), output: output@ }),
    {
        MergeArgs { input, output }
    }

    pub fn input(&self) -> (r: &Vec<String>)
        ensures
            r.deep_view() == self@.input,
    {
        &self.input
    }

    pub fn output(&self) -> (r: &String)
        ensures
            r@ == self@.output,
    {
        &self.output
    }
}

} // verus!
