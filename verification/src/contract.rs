//! What the generators of test plans share: options, errors, and reading an API
//! contract that is JSON or YAML.
use crate::json::{self, Json, JsonView};
use crate::plan::{self, Conversion, PlanView};
use vstd::prelude::*;

verus! {

/// Why no plan was generated.
#[derive(Debug)]
pub enum GenError {
    Parse(String),
    OpenApi(String),
    Postman(String),
    GraphQl(String),
    Grpc(String),
}

/// What an error of a generator means.
pub enum GenErrorView {
    Parse(Seq<char>),
    OpenApi(Seq<char>),
    Postman(Seq<char>),
    GraphQl(Seq<char>),
    Grpc(Seq<char>),
}

impl View for GenError {
    type V = GenErrorView;

    open spec fn view(&self) -> GenErrorView {
        match self {
            GenError::Parse(m) => GenErrorView::Parse(m@),
            GenError::OpenApi(m) => GenErrorView::OpenApi(m@),
            GenError::Postman(m) => GenErrorView::Postman(m@),
            GenError::GraphQl(m) => GenErrorView::GraphQl(m@),
            GenError::Grpc(m) => GenErrorView::Grpc(m@),
        }
    }
}

impl GenErrorView {
    /// The error in words.
    pub open spec fn text(self) -> Seq<char> {
        match self {
            GenErrorView::Parse(m) => "could not parse contract (not JSON or YAML): "@ + m,
            GenErrorView::OpenApi(m) => "openapi: "@ + m,
            GenErrorView::Postman(m) => "postman: "@ + m,
            GenErrorView::GraphQl(m) => "graphql: "@ + m,
            GenErrorView::Grpc(m) => "grpc: "@ + m,
        }
    }
}

impl GenError {
    /// The error in words.
    pub fn message(&self) -> (out: String)
        ensures
            out@ == self@.text(),
    {
        let (prefix, m) = match self {
            GenError::Parse(m) => ("could not parse contract (not JSON or YAML): ", m),
            GenError::OpenApi(m) => ("openapi: ", m),
            GenError::Postman(m) => ("postman: ", m),
            GenError::GraphQl(m) => ("graphql: ", m),
            GenError::Grpc(m) => ("grpc: ", m),
        };
        let mut out = prefix.to_owned();
        out.append(m.as_str());
        out
    }
}

/// Options that the generators share.
#[derive(Debug)]
pub struct GenOptions {
    /// Which of the servers that an OpenAPI document lists is meant.
    pub server: usize,
    /// The base URL, in place of the one that the contract names.
    pub base_url: Option<String>,
    /// Patterns for the operations that are wanted; none means all.
    pub includes: Vec<String>,
    /// Patterns for the operations that are not wanted.
    pub excludes: Vec<String>,
    /// Whether malformed variants of the requests are wanted too.
    pub fuzz: bool,
    /// The kinds of hostile payloads for such variants; none means the usual ones.
    pub fuzz_payloads: Vec<String>,
}

impl Default for GenOptions {
    /// The first server, every operation, no variants.
    fn default() -> (r: GenOptions)
        ensures
            r.server == 0,
            r.base_url is None,
            r.includes@ == Seq::<String>::empty(),
            r.excludes@ == Seq::<String>::empty(),
            !r.fuzz,
            r.fuzz_payloads@ == Seq::<String>::empty(),
    {
        GenOptions {
            server: 0,
            base_url: None,
            includes: Vec::new(),
            excludes: Vec::new(),
            fuzz: false,
            fuzz_payloads: Vec::new(),
        }
    }
}

/// What a generator comes to: the plan and the warnings on it, each with the
/// element it is about.
pub struct Generated {
    pub plan: PlanView,
    pub warnings: Seq<(Seq<char>, Seq<char>)>,
}

impl View for Conversion {
    type V = Generated;

    open spec fn view(&self) -> Generated {
        Generated { plan: self.plan@, warnings: plan::warning_meanings(self.warnings@) }
    }
}

/// Whether a generator's result is the given outcome.
pub open spec fn comes_to(
    r: Result<Conversion, GenError>,
    outcome: Result<Generated, GenErrorView>,
) -> bool {
    match r {
        Ok(c) => outcome == Ok::<Generated, GenErrorView>(c@),
        Err(e) => outcome == Err::<Generated, GenErrorView>(e@),
    }
}

/// The document of a contract: what it is as JSON, else as YAML.
pub open spec fn contract_of(source: Seq<char>) -> Result<JsonView, GenErrorView> {
    match json::parsed(source) {
        Ok(v) => Ok(v),
        Err(_) => match json::parsed_yaml(source) {
            Ok(v) => Ok(v),
            Err(m) => Err(GenErrorView::Parse(m)),
        },
    }
}

/// Reads a contract that is JSON or YAML.
pub fn parse_contract(source: &str) -> (r: Result<Json, GenError>)
    ensures
        match r {
            Ok(v) => contract_of(source@) == Ok::<JsonView, GenErrorView>(v@),
            Err(e) => contract_of(source@) == Err::<JsonView, GenErrorView>(e@),
        },
{
    match json::parse(source) {
        Ok(v) => Ok(v),
        Err(_) => match json::parse_yaml(source) {
            Ok(v) => Ok(v),
            Err(m) => Err(GenError::Parse(m)),
        },
    }
}

/// A contract is read as JSON, and as YAML where it is not JSON; where it is neither, it is
/// refused for what is wrong with it as YAML.
pub proof fn contracts_are_json_or_yaml(source: Seq<char>)
    ensures
        json::parsed(source) is Ok ==> contract_of(source) is Ok && contract_of(source)->Ok_0
            == json::parsed(source)->Ok_0,
        json::parsed(source) is Err && json::parsed_yaml(source) is Ok ==> contract_of(source) is Ok
            && contract_of(source)->Ok_0 == json::parsed_yaml(source)->Ok_0,
        json::parsed(source) is Err && json::parsed_yaml(source) is Err ==> contract_of(source)
            == Err::<JsonView, GenErrorView>(GenErrorView::Parse(json::parsed_yaml(source)->Err_0)),
{
}

} // verus!
