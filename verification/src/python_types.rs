//! The Python-side data model: primitive kinds, `TypedDict` properties and
//! declarations, and their rendering into Python source text. Every
//! rendering function's contract pins the produced text exactly, as a
//! character sequence built from the input's view.

use vstd::prelude::*;

use crate::strings::leading_digit;

verus! {

/// The minimum Python version the generated source must remain valid
/// under. `TypedDict` declarations look different in each of these
/// versions: 3.6 only has the constructor-call form, 3.10 adds the
/// `T | None` spelling for nullable types.
#[derive(Debug, Clone, Copy, PartialEq, Eq, Structural)]
pub enum MinimumPythonVersion {
    Python3_6,
    Python3_8,
    Python3_10,
}

/// The closed set of Python types the generator can output. `Any` is the
/// catch-all for unrecognized database types, so classification is total.
/// `Long` stands apart from `Integer` — a 64-bit column is a materially
/// different external representation — though both spell `int` in Python.
#[derive(Debug, Clone, Copy, PartialEq, Eq, Structural)]
pub enum PythonDataType {
    String,
    Integer,
    Long,
    Float,
    Boolean,
    DateTime,
    Date,
    Binary,
    Any,
}

/// The native catalog type name is one this generator recognizes. The
/// vocabulary covers both MySQL and Postgres, since input tuples are not
/// tagged with their dialect.
pub open spec fn in_mapping_table(s: Seq<char>) -> bool {
    ||| s == "text"@
    ||| s == "date"@
    ||| s == "bigint"@
    ||| s == "varchar"@
    ||| s == "longtext"@
    ||| s == "json"@
    ||| s == "char"@
    ||| s == "mediumtext"@
    ||| s == "enum"@
    ||| s == "set"@
    ||| s == "tinytext"@
    ||| s == "int"@
    ||| s == "smallint"@
    ||| s == "mediumint"@
    ||| s == "float"@
    ||| s == "double"@
    ||| s == "decimal"@
    ||| s == "tinyint"@
    ||| s == "datetime"@
    ||| s == "timestamp"@
    ||| s == "binary"@
    ||| s == "blob"@
    ||| s == "mediumblob"@
    ||| s == "longblob"@
    ||| s == "varbinary"@
    ||| s == "integer"@
    ||| s == "boolean"@
    ||| s == "character varying"@
    ||| s == "character"@
    ||| s == "jsonb"@
    ||| s == "USER-DEFINED"@
    ||| s == "double precision"@
    ||| s == "numeric"@
    ||| s == "timestamp with time zone"@
    ||| s == "timestamp without time zone"@
}

/// Maps a native catalog type name to its Python primitive kind. The rules
/// form one ordered priority list, first match wins, so overlapping dialect
/// vocabulary is resolved by an explicit policy rather than by accident.
/// Anything unmatched degrades to `Any`.
pub open spec fn classify_chars(s: Seq<char>) -> PythonDataType {
    // shared by both dialects
    if s == "text"@ {
        PythonDataType::String
    } else if s == "date"@ {
        PythonDataType::Date
    } else if s == "bigint"@ {
        PythonDataType::Long
    // mysql
    } else if s == "varchar"@ || s == "longtext"@ || s == "json"@ || s == "char"@
        || s == "mediumtext"@ || s == "enum"@ || s == "set"@ || s == "tinytext"@ {
        PythonDataType::String
    } else if s == "int"@ || s == "smallint"@ || s == "mediumint"@ {
        PythonDataType::Integer
    } else if s == "float"@ || s == "double"@ || s == "decimal"@ {
        PythonDataType::Float
    } else if s == "tinyint"@ {
        PythonDataType::Boolean
    } else if s == "datetime"@ || s == "timestamp"@ {
        PythonDataType::DateTime
    } else if s == "binary"@ || s == "blob"@ || s == "mediumblob"@ || s == "longblob"@
        || s == "varbinary"@ {
        PythonDataType::Binary
    // postgres
    } else if s == "integer"@ {
        PythonDataType::Integer
    } else if s == "boolean"@ {
        PythonDataType::Boolean
    } else if s == "character varying"@ || s == "character"@ || s == "jsonb"@
        || s == "USER-DEFINED"@ {
        // user-defined catalog entries are typically enums for type-inference purposes
        PythonDataType::String
    } else if s == "double precision"@ || s == "numeric"@ {
        PythonDataType::Float
    } else if s == "timestamp with time zone"@ || s == "timestamp without time zone"@ {
        PythonDataType::DateTime
    } else {
        PythonDataType::Any
    }
}

/// Classifies a database catalog `data_type` string into a Python kind.
/// Total over all inputs: unknown names classify as `Any`, never an error.
pub fn classify(native_type: &str) -> (r: PythonDataType)
    ensures
        r == classify_chars(native_type@),
{
    let s = native_type;
    if crate::strings::str_eq(s, "text") {
        PythonDataType::String
    } else if crate::strings::str_eq(s, "date") {
        PythonDataType::Date
    } else if crate::strings::str_eq(s, "bigint") {
        PythonDataType::Long
    } else if crate::strings::str_eq(s, "varchar") || crate::strings::str_eq(s, "longtext")
        || crate::strings::str_eq(s, "json") || crate::strings::str_eq(s, "char")
        || crate::strings::str_eq(s, "mediumtext") || crate::strings::str_eq(s, "enum")
        || crate::strings::str_eq(s, "set") || crate::strings::str_eq(s, "tinytext") {
        PythonDataType::String
    } else if crate::strings::str_eq(s, "int") || crate::strings::str_eq(s, "smallint")
        || crate::strings::str_eq(s, "mediumint") {
        PythonDataType::Integer
    } else if crate::strings::str_eq(s, "float") || crate::strings::str_eq(s, "double")
        || crate::strings::str_eq(s, "decimal") {
        PythonDataType::Float
    } else if crate::strings::str_eq(s, "tinyint") {
        PythonDataType::Boolean
    } else if crate::strings::str_eq(s, "datetime") || crate::strings::str_eq(s, "timestamp") {
        PythonDataType::DateTime
    } else if crate::strings::str_eq(s, "binary") || crate::strings::str_eq(s, "blob")
        || crate::strings::str_eq(s, "mediumblob") || crate::strings::str_eq(s, "longblob")
        || crate::strings::str_eq(s, "varbinary") {
        PythonDataType::Binary
    } else if crate::strings::str_eq(s, "integer") {
        PythonDataType::Integer
    } else if crate::strings::str_eq(s, "boolean") {
        PythonDataType::Boolean
    } else if crate::strings::str_eq(s, "character varying")
        || crate::strings::str_eq(s, "character") || crate::strings::str_eq(s, "jsonb")
        || crate::strings::str_eq(s, "USER-DEFINED") {
        PythonDataType::String
    } else if crate::strings::str_eq(s, "double precision")
        || crate::strings::str_eq(s, "numeric") {
        PythonDataType::Float
    } else if crate::strings::str_eq(s, "timestamp with time zone")
        || crate::strings::str_eq(s, "timestamp without time zone") {
        PythonDataType::DateTime
    } else {
        PythonDataType::Any
    }
}

/// Classification never fails: a native type name outside the mapping
/// table classifies as `Any`, and only such a name does.
pub proof fn lemma_unrecognized_native_type_is_any(s: Seq<char>)
    ensures
        classify_chars(s) == PythonDataType::Any <==> !in_mapping_table(s),
{
}

/// The Python spelling of each primitive kind.
pub open spec fn primitive_type_chars(t: PythonDataType) -> Seq<char> {
    match t {
        PythonDataType::String => "str"@,
        PythonDataType::Integer => "int"@,
        PythonDataType::Long => "int"@,
        PythonDataType::Float => "float"@,
        PythonDataType::Boolean => "bool"@,
        PythonDataType::DateTime => "datetime.datetime"@,
        PythonDataType::Date => "datetime.date"@,
        PythonDataType::Binary => "bytes"@,
        PythonDataType::Any => "Any"@,
    }
}

impl PythonDataType {
    /// The Python source spelling of this kind.
    pub fn as_primitive_type_str(&self) -> (r: String)
        ensures
            r@ == primitive_type_chars(*self),
    {
        match self {
            PythonDataType::String => String::from_str("str"),
            PythonDataType::Integer => String::from_str("int"),
            PythonDataType::Long => String::from_str("int"),
            PythonDataType::Float => String::from_str("float"),
            PythonDataType::Boolean => String::from_str("bool"),
            PythonDataType::DateTime => String::from_str("datetime.datetime"),
            PythonDataType::Date => String::from_str("datetime.date"),
            PythonDataType::Binary => String::from_str("bytes"),
            PythonDataType::Any => String::from_str("Any"),
        }
    }
}

/// The mathematical value of a `TypedDict` property: its name as a
/// character sequence, its nullability, and its classified kind.
pub ghost struct PythonDictPropertyView {
    pub name: Seq<char>,
    pub nullable: bool,
    pub data_type: PythonDataType,
}

/// One property of a Python `TypedDict`, derived from one database column.
#[derive(Debug, Clone, PartialEq)]
pub struct PythonDictProperty {
    pub name: String,
    pub nullable: bool,
    pub data_type: PythonDataType,
}

impl View for PythonDictProperty {
    type V = PythonDictPropertyView;

    open spec fn view(&self) -> PythonDictPropertyView {
        PythonDictPropertyView {
            name: self.name@,
            nullable: self.nullable,
            data_type: self.data_type,
        }
    }
}

impl DeepView for PythonDictProperty {
    type V = PythonDictPropertyView;

    open spec fn deep_view(&self) -> PythonDictPropertyView {
        self.view()
    }
}

/// The spelling of a property's type: the bare primitive kind when the
/// column is not nullable; otherwise the version-appropriate null form,
/// `T | None` from Python 3.10 on and `Optional[T]` before.
pub open spec fn property_type_chars(
    p: PythonDictPropertyView,
    minimum_python_version: MinimumPythonVersion,
) -> Seq<char> {
    if p.nullable {
        if minimum_python_version == MinimumPythonVersion::Python3_10 {
            primitive_type_chars(p.data_type) + " | None"@
        } else {
            "Optional["@ + primitive_type_chars(p.data_type) + "]"@
        }
    } else {
        primitive_type_chars(p.data_type)
    }
}

impl PythonDictProperty {
    /// The Python source spelling of this property's type.
    pub fn as_property_type_str(&self, minimum_python_version: MinimumPythonVersion) -> (r: String)
        ensures
            r@ == property_type_chars(self@, minimum_python_version),
    {
        if self.nullable {
            match minimum_python_version {
                MinimumPythonVersion::Python3_10 => {
                    self.data_type.as_primitive_type_str().concat(" | None")
                },
                _ => {
                    let mut r = String::from_str("Optional[");
                    let prim = self.data_type.as_primitive_type_str();
                    r.append(prim.as_str());
                    r.append("]");
                    r
                },
            }
        } else {
            self.data_type.as_primitive_type_str()
        }
    }
}

/// Under the newest version tier a nullable `String` property spells
/// `str | None`; under every older tier it spells `Optional[str]`.
pub proof fn lemma_nullable_string_spelling(
    name: Seq<char>,
    minimum_python_version: MinimumPythonVersion,
)
    ensures
        minimum_python_version == MinimumPythonVersion::Python3_10 ==> property_type_chars(
            PythonDictPropertyView { name, nullable: true, data_type: PythonDataType::String },
            minimum_python_version,
        ) == "str | None"@,
        minimum_python_version != MinimumPythonVersion::Python3_10 ==> property_type_chars(
            PythonDictPropertyView { name, nullable: true, data_type: PythonDataType::String },
            minimum_python_version,
        ) == "Optional[str]"@,
{
    reveal_strlit("str");
    reveal_strlit(" | None");
    reveal_strlit("str | None");
    reveal_strlit("Optional[");
    reveal_strlit("]");
    reveal_strlit("Optional[str]");
    assert("str"@ + " | None"@ =~= "str | None"@);
    assert("Optional["@ + "str"@ + "]"@ =~= "Optional[str]"@);
}

/// Whether backward-compatible `TypedDict` syntax is in force for one
/// declaration. It is enabled when the declaration has properties that the
/// class form cannot represent: a name starting with a digit, containing a
/// space, or equal to a Python keyword such as `from`.
#[derive(Debug, Clone, Copy, PartialEq, Eq, Structural)]
pub enum ForcedBackwardCompat {
    Enabled,
    Disabled,
}

impl From<bool> for ForcedBackwardCompat {
    fn from(value: bool) -> (r: Self) {
        if value {
            ForcedBackwardCompat::Enabled
        } else {
            ForcedBackwardCompat::Disabled
        }
    }
}

impl vstd::std_specs::convert::FromSpecImpl<bool> for ForcedBackwardCompat {
    open spec fn obeys_from_spec() -> bool {
        true
    }

    open spec fn from_spec(v: bool) -> Self {
        if v {
            ForcedBackwardCompat::Enabled
        } else {
            ForcedBackwardCompat::Disabled
        }
    }
}

/// The mathematical value of a full `TypedDict` declaration.
pub ghost struct PythonTypedDictView {
    pub name: Seq<char>,
    pub properties: Seq<PythonDictPropertyView>,
}

/// A full `TypedDict` declaration: one per database table, holding one
/// property per column in grouped order.
#[derive(Debug, PartialEq)]
pub struct PythonTypedDict {
    pub name: String,
    pub properties: Vec<PythonDictProperty>,
}

impl View for PythonTypedDict {
    type V = PythonTypedDictView;

    open spec fn view(&self) -> PythonTypedDictView {
        PythonTypedDictView { name: self.name@, properties: self.properties.deep_view() }
    }
}

impl DeepView for PythonTypedDict {
    type V = PythonTypedDictView;

    open spec fn deep_view(&self) -> PythonTypedDictView {
        self.view()
    }
}

/// The property's name would be invalid in the class form of a
/// declaration: it starts with a digit, contains a space, or equals the
/// Python keyword `from`.
pub open spec fn forces_alternate_syntax(p: PythonDictPropertyView) -> bool {
    ||| leading_digit(p.name)
    ||| p.name.contains(' ')
    ||| p.name == "from"@
}

/// Some property of the declaration forces the constructor-call form.
pub open spec fn needs_alternate_syntax(d: PythonTypedDictView) -> bool {
    exists|i: int| 0 <= i < d.properties.len() && forces_alternate_syntax(d.properties[i])
}

/// The declaration must use the constructor-call form: the caller forced
/// it, the oldest version tier's grammar has no class form, or some
/// property's name is invalid in the class form. The decision is made once
/// per declaration, so one declaration never mixes the two grammars.
pub open spec fn requires_alternate_syntax_spec(
    d: PythonTypedDictView,
    forced: bool,
    minimum_python_version: MinimumPythonVersion,
) -> bool {
    ||| forced
    ||| minimum_python_version == MinimumPythonVersion::Python3_6
    ||| needs_alternate_syntax(d)
}

/// A single property whose name starts with a digit, contains a space, or
/// equals `from` forces its entire declaration into the alternate syntax,
/// whatever the other properties, the version tier, or the caller's flag.
pub proof fn lemma_bad_property_forces_alternate(
    d: PythonTypedDictView,
    i: int,
    forced: bool,
    minimum_python_version: MinimumPythonVersion,
)
    requires
        0 <= i < d.properties.len(),
        forces_alternate_syntax(d.properties[i]),
    ensures
        requires_alternate_syntax_spec(d, forced, minimum_python_version),
{
}

impl PythonTypedDict {
    /// Decides the syntax form for this declaration.
    pub fn requires_alternate_syntax(
        &self,
        forced: bool,
        minimum_python_version: MinimumPythonVersion,
    ) -> (r: bool)
        ensures
            r == requires_alternate_syntax_spec(self@, forced, minimum_python_version),
    {
        if forced || matches!(minimum_python_version, MinimumPythonVersion::Python3_6) {
            return true;
        }
        let n = self.properties.len();
        let mut i: usize = 0;
        while i < n
            invariant
                i <= n,
                n == self.properties.len(),
                forall|j: int| 0 <= j < i ==> !forces_alternate_syntax(self@.properties[j]),
            decreases n - i,
        {
            let p = &self.properties[i];
            let bad = crate::strings::str_leading_digit(p.name.as_str())
                || crate::strings::str_contains_char(p.name.as_str(), ' ')
                || crate::strings::str_eq(p.name.as_str(), "from");
            if bad {
                assert(forces_alternate_syntax(self@.properties[i as int]));
                return true;
            }
            i = i + 1;
        }
        false
    }
}

/// The header line of a declaration: the class form opens a block, the
/// alternate form binds the identifier to a `TypedDict` constructor call
/// passing the identifier again and opening a brace.
pub open spec fn header_chars(d: PythonTypedDictView, use_alternate_syntax: bool) -> Seq<char> {
    if use_alternate_syntax {
        d.name + " = TypedDict('"@ + d.name + "', {\n"@
    } else {
        "class "@ + d.name + "(TypedDict):\n"@
    }
}

/// One indented property line, without its terminating newline. In the
/// alternate form the name is quoted and every line but the last carries a
/// trailing comma, since the grammar of the oldest tier does not tolerate a
/// dangling separator before the closing brace.
pub open spec fn entry_chars(
    p: PythonDictPropertyView,
    minimum_python_version: MinimumPythonVersion,
    use_alternate_syntax: bool,
    last: bool,
) -> Seq<char> {
    if use_alternate_syntax {
        if last {
            "    '"@ + p.name + "': "@ + property_type_chars(p, minimum_python_version)
        } else {
            "    '"@ + p.name + "': "@ + property_type_chars(p, minimum_python_version) + ","@
        }
    } else {
        "    "@ + p.name + ": "@ + property_type_chars(p, minimum_python_version)
    }
}

/// The first `i` property lines of a declaration, each with its newline.
pub open spec fn entries_upto(
    props: Seq<PythonDictPropertyView>,
    minimum_python_version: MinimumPythonVersion,
    use_alternate_syntax: bool,
    i: int,
) -> Seq<char>
    decreases i,
{
    if i <= 0 {
        Seq::<char>::empty()
    } else {
        entries_upto(props, minimum_python_version, use_alternate_syntax, i - 1) + entry_chars(
            props[i - 1],
            minimum_python_version,
            use_alternate_syntax,
            i == props.len(),
        ) + "\n"@
    }
}

/// The text of one declaration as it stands in the assembled output: the
/// header, one line per property (a bare newline when the declaration has
/// no properties), and, in the alternate form, the closing brace — without
/// a trailing newline, so declarations can be joined uniformly.
pub open spec fn dict_core_chars(
    d: PythonTypedDictView,
    minimum_python_version: MinimumPythonVersion,
    use_alternate_syntax: bool,
) -> Seq<char> {
    let body = if d.properties.len() == 0 {
        header_chars(d, use_alternate_syntax) + "\n"@
    } else {
        header_chars(d, use_alternate_syntax) + entries_upto(
            d.properties,
            minimum_python_version,
            use_alternate_syntax,
            d.properties.len() as int,
        )
    };
    if use_alternate_syntax {
        body + "})"@
    } else {
        body
    }
}

/// The standalone text of one declaration: the core text, with the
/// alternate form's closing line given its own terminating newline.
pub open spec fn typed_dict_class_chars(
    d: PythonTypedDictView,
    minimum_python_version: MinimumPythonVersion,
    forced_backward_compat: ForcedBackwardCompat,
) -> Seq<char> {
    let use_alternate_syntax = minimum_python_version == MinimumPythonVersion::Python3_6
        || forced_backward_compat == ForcedBackwardCompat::Enabled;
    if use_alternate_syntax {
        dict_core_chars(d, minimum_python_version, true) + "\n"@
    } else {
        dict_core_chars(d, minimum_python_version, false)
    }
}

impl PythonTypedDict {
    /// Renders this declaration in the form it takes inside the assembled
    /// output file: no trailing newline after the alternate form's closing
    /// brace, so the assembly step separates declarations uniformly.
    #[verifier::rlimit(60)]
    pub fn as_output_block_str(
        &self,
        minimum_python_version: MinimumPythonVersion,
        use_alternate_syntax: bool,
    ) -> (r: String)
        ensures
            r@ == dict_core_chars(self@, minimum_python_version, use_alternate_syntax),
    {
        let mut result: String;
        if use_alternate_syntax {
            result = self.name.clone();
            result.append(" = TypedDict('");
            result.append(self.name.as_str());
            result.append("', {\n");
        } else {
            result = String::from_str("class ");
            result.append(self.name.as_str());
            result.append("(TypedDict):\n");
        }
        assert(result@ == header_chars(self@, use_alternate_syntax));
        let n = self.properties.len();
        if n == 0 {
            result.append("\n");
        } else {
            let mut i: usize = 0;
            while i < n
                invariant
                    i <= n,
                    n == self.properties.len(),
                    result@ == header_chars(self@, use_alternate_syntax) + entries_upto(
                        self@.properties,
                        minimum_python_version,
                        use_alternate_syntax,
                        i as int,
                    ),
                decreases n - i,
            {
                let p = &self.properties[i];
                if use_alternate_syntax {
                    result.append("    '");
                } else {
                    result.append("    ");
                }
                result.append(p.name.as_str());
                if use_alternate_syntax {
                    result.append("': ");
                } else {
                    result.append(": ");
                }
                let type_str = p.as_property_type_str(minimum_python_version);
                result.append(type_str.as_str());
                if use_alternate_syntax && i + 1 < n {
                    result.append(",");
                }
                result.append("\n");
                proof {
                    assert(result@ =~= header_chars(self@, use_alternate_syntax) + entries_upto(
                        self@.properties,
                        minimum_python_version,
                        use_alternate_syntax,
                        i as int + 1,
                    ));
                }
                i = i + 1;
            }
        }
        if use_alternate_syntax {
            result.append("})");
        }
        result
    }

    /// Renders this declaration as standalone Python source.
    pub fn as_typed_dict_class_str(
        &self,
        minimum_python_version: MinimumPythonVersion,
        forced_backward_compat: ForcedBackwardCompat,
    ) -> (r: String)
        ensures
            r@ == typed_dict_class_chars(self@, minimum_python_version, forced_backward_compat),
    {
        let use_alternate_syntax = matches!(minimum_python_version, MinimumPythonVersion::Python3_6)
            || matches!(forced_backward_compat, ForcedBackwardCompat::Enabled);
        let mut result = self.as_output_block_str(minimum_python_version, use_alternate_syntax);
        if use_alternate_syntax {
            result.append("\n");
        }
        result
    }
}

} // verus!
