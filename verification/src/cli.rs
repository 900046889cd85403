//! What the generator is asked for: the request itself, its choices, and
//! how the answers of an interactive session become a request.

use vstd::prelude::*;

verus! {

/// A request for a project.
#[derive(Clone, Debug)]
pub struct Cli {
    /// Name of the project.
    pub project_name: String,
    /// Path to create the project under.
    pub output_path: String,
    /// Type of project to generate.
    pub project_type: String,
    /// Linter to include.
    pub linter: Option<Linter>,
    /// Test framework to include.
    pub test_framework: Option<TestFramework>,
    /// Whether the request was made in an interactive session.
    pub interactive: bool,
}

/// The language flavour of a project.
#[derive(Clone, Copy, Debug, PartialEq, Eq, Structural)]
pub enum SubType {
    /// JavaScript.
    Js,
    /// TypeScript.
    Ts,
}

/// The linters that a project can be set up with.
#[derive(Clone, Copy, Debug, PartialEq, Eq, Structural)]
pub enum Linter {
    /// ESLint.
    Eslint,
    /// Biome.
    Biome,
}

/// The test frameworks that a project can be set up with.
#[derive(Clone, Copy, Debug, PartialEq, Eq, Structural)]
pub enum TestFramework {
    /// Jest.
    Jest,
    /// Mocha with Sinon.
    MochaSinon,
    /// The Node test runner with Sinon.
    NodeSinon,
    /// Vitest.
    Vitest,
}

impl Linter {
    /// The name of the linter, which is also that of its template directory.
    pub open spec fn label(self) -> Seq<char> {
        match self {
            Linter::Eslint => "eslint"@,
            Linter::Biome => "biome"@,
        }
    }

    /// The name of the linter, which is also that of its template directory.
    pub fn name(&self) -> (r: &'static str)
        ensures
            r@ == self.label(),
    {
        match self {
            Linter::Eslint => "eslint",
            Linter::Biome => "biome",
        }
    }
}

impl TestFramework {
    /// The name of the test framework, which is also that of its template
    /// directory.
    pub open spec fn label(self) -> Seq<char> {
        match self {
            TestFramework::Jest => "jest"@,
            TestFramework::MochaSinon => "mocha-sinon"@,
            TestFramework::NodeSinon => "node-sinon"@,
            TestFramework::Vitest => "vitest"@,
        }
    }

    /// The name of the test framework, which is also that of its template
    /// directory.
    pub fn name(&self) -> (r: &'static str)
        ensures
            r@ == self.label(),
    {
        match self {
            TestFramework::Jest => "jest",
            TestFramework::MochaSinon => "mocha-sinon",
            TestFramework::NodeSinon => "node-sinon",
            TestFramework::Vitest => "vitest",
        }
    }
}

/// The project types that an interactive session offers, in order.
pub open spec fn offered_project_types() -> Seq<Seq<char>> {
    seq!["nodejs"@, "nestjs"@, "deno"@]
}

/// The linter that stands at a place in the list that an interactive
/// session offers: none first, then ESLint, then Biome.
pub open spec fn offered_linter(choice: int) -> Option<Linter> {
    if choice == 1 {
        Some(Linter::Eslint)
    } else if choice == 2 {
        Some(Linter::Biome)
    } else {
        None
    }
}

/// The test framework that stands at a place in the list that an
/// interactive session offers: none first, then Jest, Vitest, Mocha with
/// Sinon, and the Node test runner with Sinon.
pub open spec fn offered_test_framework(choice: int) -> Option<TestFramework> {
    if choice == 1 {
        Some(TestFramework::Jest)
    } else if choice == 2 {
        Some(TestFramework::Vitest)
    } else if choice == 3 {
        Some(TestFramework::MochaSinon)
    } else if choice == 4 {
        Some(TestFramework::NodeSinon)
    } else {
        None
    }
}

/// The interactive session: what it offers, and the request that its
/// answers make.
pub struct InteractiveCli;

impl InteractiveCli {
    /// The project types on offer, in order.
    pub fn project_types() -> (r: Vec<&'static str>)
        ensures
            r@.len() == 3,
            r@.map_values(|name: &'static str| name@) == offered_project_types(),
    {
        let r = vec!["nodejs", "nestjs", "deno"];
        assert(r@.map_values(|name: &'static str| name@) =~= offered_project_types());
        r
    }

    /// The linters on offer, in order, after the choice of none.
    pub fn linters() -> (r: Vec<&'static str>)
        ensures
            r@.len() == 3,
            r@[0]@ == "none"@,
            r@[1]@ == Linter::Eslint.label(),
            r@[2]@ == Linter::Biome.label(),
    {
        vec!["none", "eslint", "biome"]
    }

    /// The test frameworks on offer, in order, after the choice of none.
    pub fn test_frameworks() -> (r: Vec<&'static str>)
        ensures
            r@.len() == 5,
            r@[0]@ == "none"@,
            r@[1]@ == TestFramework::Jest.label(),
            r@[2]@ == TestFramework::Vitest.label(),
            r@[3]@ == TestFramework::MochaSinon.label(),
            r@[4]@ == TestFramework::NodeSinon.label(),
    {
        vec!["none", "jest", "vitest", "mocha-sinon", "node-sinon"]
    }

    /// The request that the answers of a session make. The project type
    /// and the add-ons are given by their places in the lists on offer; an
    /// add-on whose question went unanswered is not included.
    pub fn run(
        project_name: String,
        project_type: usize,
        linter: Option<usize>,
        test_framework: Option<usize>,
        output_path: String,
    ) -> (r: Cli)
        requires
            project_type < offered_project_types().len(),
        ensures
            r.project_name == project_name,
            r.output_path == output_path,
            r.project_type@ == offered_project_types()[project_type as int],
            r.linter == match linter {
                Some(choice) => offered_linter(choice as int),
                None => None,
            },
            r.test_framework == match test_framework {
                Some(choice) => offered_test_framework(choice as int),
                None => None,
            },
            r.interactive,
    {
        let project_types = Self::project_types();
        let project_type = project_types[project_type].to_owned();
        let linter = match linter {
            Some(1) => Some(Linter::Eslint),
            Some(2) => Some(Linter::Biome),
            _ => None,
        };
        let test_framework = match test_framework {
            Some(1) => Some(TestFramework::Jest),
            Some(2) => Some(TestFramework::Vitest),
            Some(3) => Some(TestFramework::MochaSinon),
            Some(4) => Some(TestFramework::NodeSinon),
            _ => None,
        };
        Cli { project_name, output_path, project_type, linter, test_framework, interactive: true }
    }
}

/// The details of a request as labelled lines: name and type, the add-ons
/// that were chosen, and the output path.
pub open spec fn project_details(cli: Cli) -> Seq<(Seq<char>, Seq<char>)> {
    let head = seq![("Project name"@, cli.project_name@), ("Project type"@, cli.project_type@)];
    let linter = match cli.linter {
        Some(linter) => seq![("Linter"@, linter.label())],
        None => Seq::<(Seq<char>, Seq<char>)>::empty(),
    };
    let test_framework = match cli.test_framework {
        Some(test_framework) => seq![("Test framework"@, test_framework.label())],
        None => Seq::<(Seq<char>, Seq<char>)>::empty(),
    };
    head + linter + test_framework + seq![("Output path"@, cli.output_path@)]
}

/// The views of a list of labelled lines.
pub open spec fn line_views(lines: Seq<(String, String)>) -> Seq<(Seq<char>, Seq<char>)> {
    lines.map_values(|line: (String, String)| (line.0@, line.1@))
}

/// The details of a request, each with its label, in the order in which
/// they are shown.
pub fn project_info(cli: &Cli) -> (r: Vec<(String, String)>)
    ensures
        line_views(r@) == project_details(*cli),
{
    let mut r: Vec<(String, String)> = Vec::new();
    r.push(("Project name".to_owned(), cli.project_name.clone()));
    r.push(("Project type".to_owned(), cli.project_type.clone()));
    if let Some(linter) = cli.linter {
        r.push(("Linter".to_owned(), linter.name().to_owned()));
    }
    if let Some(test_framework) = cli.test_framework {
        r.push(("Test framework".to_owned(), test_framework.name().to_owned()));
    }
    r.push(("Output path".to_owned(), cli.output_path.clone()));
    assert(line_views(r@) =~= project_details(*cli));
    r
}

} // verus!
