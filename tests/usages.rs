use swagger_edit::json::Json;
use swagger_edit::reach::find_usages;
use swagger_edit::swagger::{DefinitionEntries, PathEntries};

fn to_json(v: &serde_json::Value) -> Json {
    match v {
        serde_json::Value::Null => Json::Null,
        serde_json::Value::Bool(b) => Json::Bool(*b),
        serde_json::Value::Number(n) => Json::Number(n.to_string()),
        serde_json::Value::String(s) => Json::Str(s.clone()),
        serde_json::Value::Array(a) => Json::Array(a.iter().map(to_json).collect()),
        serde_json::Value::Object(o) => {
            Json::Object(o.iter().map(|(k, v)| (k.clone(), to_json(v))).collect())
        }
    }
}

fn fields(v: &serde_json::Value) -> Vec<(String, Json)> {
    match to_json(v) {
        Json::Object(f) => f,
        _ => panic!("not an object"),
    }
}

fn tables(data: &str) -> (PathEntries, DefinitionEntries) {
    let doc: serde_json::Value = serde_json::from_str(data).unwrap();
    let paths = doc["paths"]
        .as_object()
        .unwrap()
        .iter()
        .map(|(k, v)| (k.clone(), fields(v)))
        .collect();
    let definitions = doc["definitions"]
        .as_object()
        .unwrap()
        .iter()
        .map(|(k, v)| (k.clone(), fields(v)))
        .collect();
    (paths, definitions)
}

#[test]
fn it_find_usages() {
    // Arrange
    let data = r#"{
"swagger": "2.0",
"info": {
    "version": "1",
    "title": "test-api"
},
"host": "",
"basePath": "/",
"tags": [],
"paths": {
    "/api": {
        "get": {
            "parameters": [
                {
                    "name": "query",
                    "in": "query",
                    "type": "string"
                }
            ],
            "responses": {
                "200": {
                    "description": "OK",
                    "schema": {
                        "originalRef": "ResponseDto"
                    }
                }
            }
        },
        "post": {
            "parameters": [],
            "responses": {
                "200": {
                    "description": "OK",
                    "schema": {
                        "type": "array",
                        "items": {
                            "originalRef": "ResponseItemDto"
                        }
                    }
                }
            }
        },
        "delete": {
            "parameters": [
                {
                    "in": "body",
                    "schema": {
                        "originalRef": "ParametersDto"
                    }
                }
            ],
            "responses": {}
        }
    }
},
"definitions": {
    "ResponseDto": {
        "type": "object",
        "required": [],
        "properties": {
            "status": {
                "originalRef": "StatusDto"
            },
            "rows": {
                "type": "array",
                "items": {
                    "originalRef": "ResponseRowDto"
                }
            }
        },
        "title": "ResponseDto"
    },
    "StatusDto": {
        "type": "string"
    },
    "ResponseRowDto": {
        "type": "object"
    },
    "ParametersDto": {
        "type": "object",
        "required": ["id"],
        "properties": {
            "id": {
                "type": "string"
            }
        },
        "title": "ParametersDto"
    }
}
        }"#;
    let (paths, definitions) = tables(data);
    let expected = [
        "ParametersDto",
        "ResponseDto",
        "ResponseItemDto",
        "ResponseRowDto",
        "StatusDto",
    ];

    // Act
    let result = find_usages(&paths, &definitions);

    // Assert
    assert_eq!(result, expected);
}
