//! Values that templates can read: the file's path and its parts, the
//! arguments given on the command line, and the prompt of `input()`.

use vstd::prelude::*;
use crate::path::{spec_file_name, spec_file_stem, spec_extension, spec_parent, file_name, file_stem, extension, parent};
use crate::templates::lookup;
use crate::text::{copy_str, str_eq, concat, decimal, decimal_string, opt_chars};

verus! {

/// A value handed to a template.
#[derive(Debug, PartialEq, Eq)]
pub enum Value {
    String(String),
    OptionString(Option<String>),
}

/// The `file` variable: the path of the file and its parts.
#[derive(Debug, PartialEq, Eq)]
pub struct FileProvider;

/// The `args` variable: the arguments given on the command line.
#[derive(Debug, PartialEq, Eq)]
pub struct ArgsProvider;

/// The `input()` function, which asks the user for a value.
#[derive(Debug, PartialEq, Eq)]
pub struct InputBuilder;

/// What `file.<property>` gives for a file at `path`.
pub open spec fn file_property(property: Seq<char>, path: Seq<char>) -> Option<FileValue> {
    if property == "path"@ {
        Some(FileValue::Text(path))
    } else if property == "name"@ {
        Some(FileValue::Maybe(spec_file_name(path)))
    } else if property == "stem"@ {
        Some(FileValue::Maybe(spec_file_stem(path)))
    } else if property == "extension"@ {
        Some(FileValue::Maybe(spec_extension(path)))
    } else if property == "parent"@ {
        Some(FileValue::Maybe(spec_parent(path)))
    } else {
        None
    }
}

/// A value, as characters.
pub enum FileValue {
    Text(Seq<char>),
    Maybe(Option<Seq<char>>),
}

/// The characters of a value.
pub open spec fn value_view(v: Value) -> FileValue {
    match v {
        Value::String(s) => FileValue::Text(s@),
        Value::OptionString(o) => FileValue::Maybe(opt_chars(o)),
    }
}

/// What a property of a variable reads.
#[derive(Debug, PartialEq, Eq)]
pub enum Accessor {
    /// The file's path.
    Path,
    /// The file's name.
    Name,
    /// The file's stem.
    Stem,
    /// The file's extension.
    Extension,
    /// The file's parent folder.
    Parent,
    /// The command-line argument with this key.
    Arg(String),
}

/// A property of a variable's schema: its name and what it holds.
#[derive(Debug, PartialEq, Eq)]
pub struct Field {
    pub name: String,
    pub accessor: Accessor,
}

/// What a variable's schema holds.
#[derive(Debug, PartialEq, Eq)]
pub enum SchemaNode {
    /// A single value.
    Terminal(Accessor),
    /// Named properties, in order.
    Object(Vec<Field>),
    /// A property for any key, read as the argument with that key.
    DynamicMap,
}

/// A variable's schema: its name and what it holds.
#[derive(Debug, PartialEq, Eq)]
pub struct Property {
    pub name: String,
    pub node: SchemaNode,
}

/// The property named `name` that reads with `accessor`'s kind.
pub open spec fn field_is(f: Field, name: Seq<char>, kind: Accessor) -> bool {
    f.name@ == name && match (f.accessor, kind) {
        (Accessor::Path, Accessor::Path) => true,
        (Accessor::Name, Accessor::Name) => true,
        (Accessor::Stem, Accessor::Stem) => true,
        (Accessor::Extension, Accessor::Extension) => true,
        (Accessor::Parent, Accessor::Parent) => true,
        _ => false,
    }
}

impl Accessor {
    /// The value it reads for the file at `path`, with the command-line
    /// arguments `args`: the path as text; the name, stem, extension or
    /// parent where there is one; the argument, or `<UNDEFINED>`.
    pub fn value(&self, path: &str, args: &Vec<(String, String)>) -> (r: Value)
        ensures
            match self {
                Accessor::Path => value_view(r) == FileValue::Text(path@),
                Accessor::Name => value_view(r) == FileValue::Maybe(spec_file_name(path@)),
                Accessor::Stem => value_view(r) == FileValue::Maybe(spec_file_stem(path@)),
                Accessor::Extension => value_view(r) == FileValue::Maybe(spec_extension(path@)),
                Accessor::Parent => value_view(r) == FileValue::Maybe(spec_parent(path@)),
                Accessor::Arg(k) => r matches Value::String(s) && match lookup(args@, k@) {
                    Some(v) => s@ == v,
                    None => s@ == "<UNDEFINED>"@,
                },
            },
    {
        match self {
            Accessor::Path => Value::String(copy_str(path)),
            Accessor::Name => Value::OptionString(file_name(path)),
            Accessor::Stem => Value::OptionString(file_stem(path)),
            Accessor::Extension => Value::OptionString(extension(path)),
            Accessor::Parent => Value::OptionString(parent(path)),
            Accessor::Arg(k) => Value::String(ArgsProvider.get(args, k.as_str())),
        }
    }
}

impl FileProvider {
    /// The name of the variable.
    pub fn name(&self) -> (s: &'static str)
        ensures
            s@ == "file"@,
    {
        "file"
    }

    /// The schema of `file`: an object of the properties `path`, `name`,
    /// `stem`, `extension` and `parent`, in that order, each reading the
    /// part of the file it is named after.
    pub fn schema(&self) -> (p: Property)
        ensures
            p.name@ == "file"@,
            p.node matches SchemaNode::Object(fields) && fields@.len() == 5
                && field_is(fields@[0], "path"@, Accessor::Path)
                && field_is(fields@[1], "name"@, Accessor::Name)
                && field_is(fields@[2], "stem"@, Accessor::Stem)
                && field_is(fields@[3], "extension"@, Accessor::Extension)
                && field_is(fields@[4], "parent"@, Accessor::Parent),
    {
        let fields = vec![
            Field { name: String::from_str("path"), accessor: Accessor::Path },
            Field { name: String::from_str("name"), accessor: Accessor::Name },
            Field { name: String::from_str("stem"), accessor: Accessor::Stem },
            Field { name: String::from_str("extension"), accessor: Accessor::Extension },
            Field { name: String::from_str("parent"), accessor: Accessor::Parent },
        ];
        Property { name: String::from_str(self.name()), node: SchemaNode::Object(fields) }
    }

    /// The value of `file.<property>` for the file at `path`: its path, or
    /// its name, stem, extension or parent where it has one; `None` for a
    /// property the variable does not have.
    pub fn get(&self, property: &str, path: &str) -> (r: Option<Value>)
        ensures
            match r {
                Some(v) => file_property(property@, path@) == Some(value_view(v)),
                None => file_property(property@, path@) is None,
            },
    {
        if str_eq(property, "path") {
            Some(Value::String(copy_str(path)))
        } else if str_eq(property, "name") {
            Some(Value::OptionString(file_name(path)))
        } else if str_eq(property, "stem") {
            Some(Value::OptionString(file_stem(path)))
        } else if str_eq(property, "extension") {
            Some(Value::OptionString(extension(path)))
        } else if str_eq(property, "parent") {
            Some(Value::OptionString(parent(path)))
        } else {
            None
        }
    }
}

impl ArgsProvider {
    /// The name of the variable.
    pub fn name(&self) -> (s: &'static str)
        ensures
            s@ == "args"@,
    {
        "args"
    }

    /// The schema of `args`: a property for any key, read as the argument
    /// given for it.
    pub fn schema(&self) -> (p: Property)
        ensures
            p.name@ == "args"@,
            p.node is DynamicMap,
    {
        Property { name: String::from_str(self.name()), node: SchemaNode::DynamicMap }
    }

    /// The value of `args.<key>`: the argument given for it, or
    /// `<UNDEFINED>`.
    pub fn get(&self, args: &Vec<(String, String)>, key: &str) -> (r: String)
        ensures
            match lookup(args@, key@) {
                Some(v) => r@ == v,
                None => r@ == "<UNDEFINED>"@,
            },
    {
        let c = crate::templates::Context { entries: clone_pairs(args) };
        match c.get(key) {
            Some(v) => v,
            None => String::from_str("<UNDEFINED>"),
        }
    }
}

/// Copies of the pairs.
fn clone_pairs(v: &Vec<(String, String)>) -> (r: Vec<(String, String)>)
    ensures
        forall|k: Seq<char>| lookup(r@, k) == lookup(v@, k),
{
    let mut out: Vec<(String, String)> = Vec::new();
    let mut i: usize = 0;
    while i < v.len()
        invariant
            i <= v@.len(),
            out@.len() == i,
            forall|j: int| 0 <= j < i ==> (#[trigger] out@[j]).0@ == v@[j].0@ && out@[j].1@ == v@[j].1@,
        decreases v@.len() - i,
    {
        out.push((copy_str(v[i].0.as_str()), copy_str(v[i].1.as_str())));
        i = i + 1;
    }
    proof {
        crate::templates::lemma_lookup_same(out@, v@);
    }
    out
}

/// The message for a call of `input()` with too many arguments.
pub open spec fn too_many_arguments(n: nat) -> Seq<char> {
    "input() takes at most one argument (the prompt), but received "@ + decimal(n)
}

impl InputBuilder {
    /// The name of the function.
    pub fn name(&self) -> (s: &'static str)
        ensures
            s@ == "input"@,
    {
        "input"
    }

    /// The prompt of a call of `input()` with `args` arguments, the first
    /// being `prompt` when there is one: at most one argument is accepted,
    /// and without one the prompt is `Enter a value:`.
    pub fn build(&self, args: usize, prompt: Option<String>) -> (r: Result<String, String>)
        requires
            args <= u64::MAX,
            (args == 0) == (prompt is None),
        ensures
            r is Err <==> args > 1,
            r matches Err(m) ==> m@ == too_many_arguments(args as nat),
            r matches Ok(p) ==> match prompt {
                Some(given) => p@ == given@,
                None => p@ == "Enter a value:"@,
            },
    {
        if args > 1 {
            let n = decimal_string(args as u64);
            return Err(concat("input() takes at most one argument (the prompt), but received ", n.as_str()));
        }
        match prompt {
            Some(p) => Ok(p),
            None => Ok(String::from_str("Enter a value:")),
        }
    }
}

/// The value that `input()` reads: the answer to its prompt.
#[derive(Debug, PartialEq, Eq)]
pub struct InputAccessor;

impl InputAccessor {
    /// The prompt that the argument's value gives: the value must be a
    /// string; any other value is handed back, refused.
    pub fn prompt(&self, value: Value) -> (r: Result<String, Value>)
        ensures
            match value {
                Value::String(s) => r == Ok::<String, Value>(s),
                other => r == Err::<String, Value>(other),
            },
    {
        match value {
            Value::String(s) => Ok(s),
            other => Err(other),
        }
    }
}

} // verus!
