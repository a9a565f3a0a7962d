use db_introspector_gadget::python_types::{
    ForcedBackwardCompat, MinimumPythonVersion, PythonDataType, PythonDictProperty,
    PythonTypedDict,
};

fn get_str_some_property(nullable: bool) -> PythonDictProperty {
    PythonDictProperty {
        name: String::from("some_property"),
        nullable,
        data_type: PythonDataType::String,
    }
}

#[test]
fn test_non_nullable_property_type_str_python_3_6() {
    let pdp = get_str_some_property(false);

    assert_eq!(
        pdp.as_property_type_str(MinimumPythonVersion::Python3_6),
        String::from("str")
    );
}

#[test]
fn test_non_nullable_property_type_str_python_3_8() {
    let pdp = get_str_some_property(false);

    assert_eq!(
        pdp.as_property_type_str(MinimumPythonVersion::Python3_8),
        String::from("str")
    );
}

#[test]
fn test_non_nullable_property_type_str_python_3_10() {
    let pdp = get_str_some_property(false);

    assert_eq!(
        pdp.as_property_type_str(MinimumPythonVersion::Python3_10),
        String::from("str")
    );
}

#[test]
fn test_nullable_property_type_str_python_3_6() {
    let pdp = get_str_some_property(true);

    assert_eq!(
        pdp.as_property_type_str(MinimumPythonVersion::Python3_6),
        String::from("Optional[str]")
    );
}

#[test]
fn test_nullable_property_type_str_python_3_8() {
    let pdp = get_str_some_property(true);

    assert_eq!(
        pdp.as_property_type_str(MinimumPythonVersion::Python3_8),
        String::from("Optional[str]")
    );
}

#[test]
fn test_nullable_property_type_str_python_3_10() {
    let pdp = get_str_some_property(true);

    assert_eq!(
        pdp.as_property_type_str(MinimumPythonVersion::Python3_10),
        String::from("str | None")
    );
}

#[test]
fn test_typed_dict_class_str_python_3_6() {
    let dict = PythonTypedDict {
        name: String::from("TestTable"),
        properties: vec![get_str_some_property(false)],
    };

    assert_eq!(
        dict.as_typed_dict_class_str(
            MinimumPythonVersion::Python3_6,
            ForcedBackwardCompat::Disabled
        ),
        "TestTable = TypedDict('TestTable', {\n    'some_property': str\n})\n"
    );

    assert_eq!(
        dict.as_typed_dict_class_str(
            MinimumPythonVersion::Python3_6,
            ForcedBackwardCompat::Enabled
        ),
        "TestTable = TypedDict('TestTable', {\n    'some_property': str\n})\n"
    );
}

#[test]
fn test_typed_dict_class_str_python_3_8() {
    let dict = PythonTypedDict {
        name: String::from("TestTable"),
        properties: vec![get_str_some_property(false)],
    };

    assert_eq!(
        dict.as_typed_dict_class_str(
            MinimumPythonVersion::Python3_8,
            ForcedBackwardCompat::Disabled
        ),
        "class TestTable(TypedDict):\n    some_property: str\n"
    );

    assert_eq!(
        dict.as_typed_dict_class_str(
            MinimumPythonVersion::Python3_8,
            ForcedBackwardCompat::Enabled
        ),
        "TestTable = TypedDict('TestTable', {\n    'some_property': str\n})\n"
    );
}

#[test]
fn test_typed_dict_class_str_python_3_10() {
    let dict = PythonTypedDict {
        name: String::from("TestTable"),
        properties: vec![get_str_some_property(false)],
    };

    assert_eq!(
        dict.as_typed_dict_class_str(
            MinimumPythonVersion::Python3_10,
            ForcedBackwardCompat::Disabled
        ),
        "class TestTable(TypedDict):\n    some_property: str\n"
    );

    assert_eq!(
        dict.as_typed_dict_class_str(
            MinimumPythonVersion::Python3_10,
            ForcedBackwardCompat::Enabled
        ),
        "TestTable = TypedDict('TestTable', {\n    'some_property': str\n})\n"
    );
}

#[test]
fn test_typed_dict_class_str_with_mult_properties_python_3_6() {
    let dict = PythonTypedDict {
        name: String::from("TestTable"),
        properties: vec![
            PythonDictProperty {
                name: String::from("some_property"),
                nullable: false,
                data_type: PythonDataType::String,
            },
            PythonDictProperty {
                name: String::from("some_other_property"),
                nullable: false,
                data_type: PythonDataType::Boolean,
            },
        ],
    };

    assert_eq!(
        dict.as_typed_dict_class_str(
            MinimumPythonVersion::Python3_6,
            ForcedBackwardCompat::Disabled
        ),
        "TestTable = TypedDict('TestTable', {\n    'some_property': str,\n    'some_other_property': bool\n})\n"
    );

    assert_eq!(
        dict.as_typed_dict_class_str(
            MinimumPythonVersion::Python3_6,
            ForcedBackwardCompat::Enabled
        ),
        "TestTable = TypedDict('TestTable', {\n    'some_property': str,\n    'some_other_property': bool\n})\n"
    );
}

#[test]
fn test_typed_dict_class_str_with_mult_properties_python_3_8() {
    let dict = PythonTypedDict {
        name: String::from("TestTable"),
        properties: vec![
            PythonDictProperty {
                name: String::from("some_property"),
                nullable: false,
                data_type: PythonDataType::String,
            },
            PythonDictProperty {
                name: String::from("some_other_property"),
                nullable: false,
                data_type: PythonDataType::Boolean,
            },
        ],
    };

    assert_eq!(
        dict.as_typed_dict_class_str(
            MinimumPythonVersion::Python3_8,
            ForcedBackwardCompat::Disabled
        ),
        "class TestTable(TypedDict):\n    some_property: str\n    some_other_property: bool\n"
    );

    assert_eq!(
        dict.as_typed_dict_class_str(
            MinimumPythonVersion::Python3_8,
            ForcedBackwardCompat::Enabled
        ),
        "TestTable = TypedDict('TestTable', {\n    'some_property': str,\n    'some_other_property': bool\n})\n"
    );
}

#[test]
fn test_typed_dict_class_str_with_mult_properties_python_3_10() {
    let dict = PythonTypedDict {
        name: String::from("TestTable"),
        properties: vec![
            PythonDictProperty {
                name: String::from("some_property"),
                nullable: false,
                data_type: PythonDataType::String,
            },
            PythonDictProperty {
                name: String::from("some_other_property"),
                nullable: false,
                data_type: PythonDataType::Boolean,
            },
        ],
    };

    assert_eq!(
        dict.as_typed_dict_class_str(
            MinimumPythonVersion::Python3_10,
            ForcedBackwardCompat::Disabled
        ),
        "class TestTable(TypedDict):\n    some_property: str\n    some_other_property: bool\n"
    );

    assert_eq!(
        dict.as_typed_dict_class_str(
            MinimumPythonVersion::Python3_10,
            ForcedBackwardCompat::Enabled
        ),
        "TestTable = TypedDict('TestTable', {\n    'some_property': str,\n    'some_other_property': bool\n})\n"
    );
}

#[test]
fn test_typed_dict_class_str_with_nullable_property_python_3_6() {
    let dict = PythonTypedDict {
        name: String::from("TestTable"),
        properties: vec![get_str_some_property(true)],
    };

    assert_eq!(
        dict.as_typed_dict_class_str(
            MinimumPythonVersion::Python3_6,
            ForcedBackwardCompat::Disabled
        ),
        "TestTable = TypedDict('TestTable', {\n    'some_property': Optional[str]\n})\n"
    );

    assert_eq!(
        dict.as_typed_dict_class_str(
            MinimumPythonVersion::Python3_6,
            ForcedBackwardCompat::Enabled
        ),
        "TestTable = TypedDict('TestTable', {\n    'some_property': Optional[str]\n})\n"
    );
}

#[test]
fn test_typed_dict_class_str_with_nullable_property_python_3_8() {
    let dict = PythonTypedDict {
        name: String::from("TestTable"),
        properties: vec![get_str_some_property(true)],
    };

    assert_eq!(
        dict.as_typed_dict_class_str(
            MinimumPythonVersion::Python3_8,
            ForcedBackwardCompat::Disabled
        ),
        "class TestTable(TypedDict):\n    some_property: Optional[str]\n"
    );

    assert_eq!(
        dict.as_typed_dict_class_str(
            MinimumPythonVersion::Python3_6,
            ForcedBackwardCompat::Enabled
        ),
        "TestTable = TypedDict('TestTable', {\n    'some_property': Optional[str]\n})\n"
    );
}

#[test]
fn test_typed_dict_class_str_with_nullable_property_python_3_10() {
    let dict = PythonTypedDict {
        name: String::from("TestTable"),
        properties: vec![get_str_some_property(true)],
    };

    assert_eq!(
        dict.as_typed_dict_class_str(
            MinimumPythonVersion::Python3_10,
            ForcedBackwardCompat::Disabled
        ),
        "class TestTable(TypedDict):\n    some_property: str | None\n"
    );

    assert_eq!(
        dict.as_typed_dict_class_str(
            MinimumPythonVersion::Python3_10,
            ForcedBackwardCompat::Enabled
        ),
        "TestTable = TypedDict('TestTable', {\n    'some_property': str | None\n})\n"
    );
}

#[test]
fn test_typed_dict_class_str_with_nullable_and_nonnull_property_python_3_6() {
    let dict = PythonTypedDict {
        name: String::from("TestTable"),
        properties: vec![
            PythonDictProperty {
                name: String::from("some_property"),
                nullable: true,
                data_type: PythonDataType::String,
            },
            PythonDictProperty {
                name: String::from("some_other_property"),
                nullable: false,
                data_type: PythonDataType::String,
            },
        ],
    };

    assert_eq!(
        dict.as_typed_dict_class_str(
            MinimumPythonVersion::Python3_6,
            ForcedBackwardCompat::Disabled
        ),
        "TestTable = TypedDict('TestTable', {\n    'some_property': Optional[str],\n    'some_other_property': str\n})\n"
    );

    assert_eq!(
        dict.as_typed_dict_class_str(
            MinimumPythonVersion::Python3_6,
            ForcedBackwardCompat::Enabled
        ),
        "TestTable = TypedDict('TestTable', {\n    'some_property': Optional[str],\n    'some_other_property': str\n})\n"
    );
}

#[test]
fn test_typed_dict_class_str_with_nullable_and_nonnull_property_python_3_8() {
    let dict = PythonTypedDict {
        name: String::from("TestTable"),
        properties: vec![
            PythonDictProperty {
                name: String::from("some_property"),
                nullable: true,
                data_type: PythonDataType::String,
            },
            PythonDictProperty {
                name: String::from("some_other_property"),
                nullable: false,
                data_type: PythonDataType::String,
            },
        ],
    };

    assert_eq!(
        dict.as_typed_dict_class_str(
            MinimumPythonVersion::Python3_8,
            ForcedBackwardCompat::Disabled
        ),
        "class TestTable(TypedDict):\n    some_property: Optional[str]\n    some_other_property: str\n"
    );

    assert_eq!(
        dict.as_typed_dict_class_str(
            MinimumPythonVersion::Python3_8,
            ForcedBackwardCompat::Enabled
        ),
        "TestTable = TypedDict('TestTable', {\n    'some_property': Optional[str],\n    'some_other_property': str\n})\n"
    );
}

#[test]
fn test_typed_dict_class_str_with_nullable_and_nonnull_property_python_3_10() {
    let dict = PythonTypedDict {
        name: String::from("TestTable"),
        properties: vec![
            PythonDictProperty {
                name: String::from("some_property"),
                nullable: true,
                data_type: PythonDataType::String,
            },
            PythonDictProperty {
                name: String::from("some_other_property"),
                nullable: false,
                data_type: PythonDataType::String,
            },
        ],
    };

    assert_eq!(
        dict.as_typed_dict_class_str(
            MinimumPythonVersion::Python3_10,
            ForcedBackwardCompat::Disabled
        ),
        "class TestTable(TypedDict):\n    some_property: str | None\n    some_other_property: str\n"
    );

    assert_eq!(
        dict.as_typed_dict_class_str(
            MinimumPythonVersion::Python3_10,
            ForcedBackwardCompat::Enabled
        ),
        "TestTable = TypedDict('TestTable', {\n    'some_property': str | None,\n    'some_other_property': str\n})\n"
    );
}
