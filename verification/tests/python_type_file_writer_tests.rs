use db_introspector_gadget::db_introspector::TableColumnDefinition;
use db_introspector_gadget::python_type_file_writer::{
    convert_table_column_definitions_to_python_dicts, write_python_dicts_to_str,
};
use db_introspector_gadget::python_types::{
    MinimumPythonVersion, PythonDataType, PythonDictProperty, PythonTypedDict,
};

#[test]
fn convert_definitios_to_single_dict_for_single_table() {
    let table_column_definitions = vec![
        TableColumnDefinition {
            table_name: String::from("some_table"),
            column_name: String::from("column_one"),
            nullable: false,
            data_type: String::from("varchar"),
        },
        TableColumnDefinition {
            table_name: String::from("some_table"),
            column_name: String::from("column_two"),
            nullable: true,
            data_type: String::from("varchar"),
        },
    ];

    let result = convert_table_column_definitions_to_python_dicts(table_column_definitions);

    let expected = vec![PythonTypedDict {
        name: String::from("SomeTable"),
        properties: vec![
            PythonDictProperty {
                name: String::from("column_one"),
                nullable: false,
                data_type: PythonDataType::String,
            },
            PythonDictProperty {
                name: String::from("column_two"),
                nullable: true,
                data_type: PythonDataType::String,
            },
        ],
    }];

    assert_eq!(result, expected)
}

#[test]
fn convert_definitions_to_two_dicts_for_two_tables() {
    let table_column_definitions = vec![
        TableColumnDefinition {
            table_name: String::from("some_other_table"),
            column_name: String::from("column_one"),
            nullable: true,
            data_type: String::from("varchar"),
        },
        TableColumnDefinition {
            table_name: String::from("some_table"),
            column_name: String::from("column_one"),
            nullable: false,
            data_type: String::from("varchar"),
        },
    ];

    let result = convert_table_column_definitions_to_python_dicts(table_column_definitions);

    let expected = vec![
        PythonTypedDict {
            name: String::from("SomeOtherTable"),
            properties: vec![PythonDictProperty {
                name: String::from("column_one"),
                nullable: true,
                data_type: PythonDataType::String,
            }],
        },
        PythonTypedDict {
            name: String::from("SomeTable"),
            properties: vec![PythonDictProperty {
                name: String::from("column_one"),
                nullable: false,
                data_type: PythonDataType::String,
            }],
        },
    ];

    assert_eq!(result, expected)
}

#[test]
fn sorts_python_dict_vec_correctly() {
    let table_column_definitions = vec![
        TableColumnDefinition {
            table_name: String::from("b_table"),
            column_name: String::from("column_one"),
            nullable: false,
            data_type: String::from("varchar"),
        },
        TableColumnDefinition {
            table_name: String::from("a_table"),
            column_name: String::from("column_one"),
            nullable: true,
            data_type: String::from("varchar"),
        },
    ];

    let result = convert_table_column_definitions_to_python_dicts(table_column_definitions);

    let expected = vec![
        PythonTypedDict {
            name: String::from("ATable"),
            properties: vec![PythonDictProperty {
                name: String::from("column_one"),
                nullable: true,
                data_type: PythonDataType::String,
            }],
        },
        PythonTypedDict {
            name: String::from("BTable"),
            properties: vec![PythonDictProperty {
                name: String::from("column_one"),
                nullable: false,
                data_type: PythonDataType::String,
            }],
        },
    ];

    assert_eq!(result, expected)
}

#[test]
fn writes_single_dict_to_string() {
    let dict = vec![PythonTypedDict {
        name: String::from("SomeTable"),
        properties: vec![
            PythonDictProperty {
                name: String::from("column_one"),
                nullable: false,
                data_type: PythonDataType::String,
            },
            PythonDictProperty {
                name: String::from("column_two"),
                nullable: true,
                data_type: PythonDataType::String,
            },
        ],
    }];

    let result = write_python_dicts_to_str(dict, MinimumPythonVersion::Python3_10);
    let expected = "import datetime\nfrom typing import Any, TypedDict\n\n\nclass SomeTable(TypedDict):\n    column_one: str\n    column_two: str | None\n";

    assert_eq!(result, expected)
}

#[test]
fn writes_multiple_dict_to_string() {
    let dicts = vec![
        PythonTypedDict {
            name: String::from("ATable"),
            properties: vec![PythonDictProperty {
                name: String::from("column_one"),
                nullable: true,
                data_type: PythonDataType::String,
            }],
        },
        PythonTypedDict {
            name: String::from("BTable"),
            properties: vec![PythonDictProperty {
                name: String::from("column_one"),
                nullable: false,
                data_type: PythonDataType::String,
            }],
        },
    ];

    let result = write_python_dicts_to_str(dicts, MinimumPythonVersion::Python3_10);
    let expected = "import datetime\nfrom typing import Any, TypedDict\n\n\nclass ATable(TypedDict):\n    column_one: str | None\n\n\nclass BTable(TypedDict):\n    column_one: str\n";

    assert_eq!(result, expected)
}

#[test]
fn ignores_writing_dict_with_dollar_sign_in_name() {
    let dicts = vec![
        PythonTypedDict {
            name: String::from("ATable$"),
            properties: vec![PythonDictProperty {
                name: String::from("column_one"),
                nullable: true,
                data_type: PythonDataType::String,
            }],
        },
        PythonTypedDict {
            name: String::from("BTable"),
            properties: vec![PythonDictProperty {
                name: String::from("column_one"),
                nullable: false,
                data_type: PythonDataType::String,
            }],
        },
    ];

    let result = write_python_dicts_to_str(dicts, MinimumPythonVersion::Python3_10);
    let expected = "import datetime\nfrom typing import Any, TypedDict\n\n\nclass BTable(TypedDict):\n    column_one: str\n";

    assert_eq!(result, expected)
}

#[test]
fn ignores_writing_dict_starts_with_number() {
    let dicts = vec![
        PythonTypedDict {
            name: String::from("1Table"),
            properties: vec![PythonDictProperty {
                name: String::from("column_one"),
                nullable: true,
                data_type: PythonDataType::String,
            }],
        },
        PythonTypedDict {
            name: String::from("BTable"),
            properties: vec![PythonDictProperty {
                name: String::from("column_one"),
                nullable: false,
                data_type: PythonDataType::String,
            }],
        },
    ];

    let result = write_python_dicts_to_str(dicts, MinimumPythonVersion::Python3_10);
    let expected = "import datetime\nfrom typing import Any, TypedDict\n\n\nclass BTable(TypedDict):\n    column_one: str\n";

    assert_eq!(result, expected)
}

#[test]
fn first_dict_backwards_compat() {
    let dicts = vec![
        PythonTypedDict {
            name: String::from("ATable"),
            properties: vec![PythonDictProperty {
                name: String::from("1column"),
                nullable: true,
                data_type: PythonDataType::String,
            }],
        },
        PythonTypedDict {
            name: String::from("BTable"),
            properties: vec![PythonDictProperty {
                name: String::from("column_one"),
                nullable: false,
                data_type: PythonDataType::String,
            }],
        },
    ];

    let result = write_python_dicts_to_str(dicts, MinimumPythonVersion::Python3_10);

    let expected = "import datetime\nfrom typing import Any, TypedDict\n\n\nATable = TypedDict('ATable', {\n    '1column': str | None\n})\n\nclass BTable(TypedDict):\n    column_one: str\n";

    assert_eq!(result, expected)
}

#[test]
fn supports_python_3_6() {
    let dicts = vec![
        PythonTypedDict {
            name: String::from("ATable"),
            properties: vec![PythonDictProperty {
                name: String::from("1column"),
                nullable: true,
                data_type: PythonDataType::String,
            }],
        },
        PythonTypedDict {
            name: String::from("BTable"),
            properties: vec![PythonDictProperty {
                name: String::from("column_one"),
                nullable: false,
                data_type: PythonDataType::String,
            }],
        },
    ];

    let result = write_python_dicts_to_str(dicts, MinimumPythonVersion::Python3_6);

    let expected = "import datetime\nfrom typing import Any, Optional, TypedDict\n\n\nATable = TypedDict('ATable', {\n    '1column': Optional[str]\n})\n\nBTable = TypedDict('BTable', {\n    'column_one': str\n})";

    assert_eq!(result, expected)
}
