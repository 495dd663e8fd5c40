use exploit_prover::python_parser::PythonParser;
use exploit_prover::slicer::BackwardSlicer;
use exploit_prover::syntax::SyntaxNode;

fn create_slicer_with_source(source: &str) -> (BackwardSlicer, SyntaxNode) {
    let mut parser = PythonParser::new().unwrap();
    let tree = parser.parse(source).unwrap();
    let mut slicer = BackwardSlicer::new();
    slicer.analyze(source, &tree);
    (slicer, tree)
}

#[test]
fn slicer_test_user_input_is_tainted() {
    let source = r#"
user_id = request.args.get('id')
query = f"SELECT * FROM users WHERE id = {user_id}"
"#;
    let (slicer, _) = create_slicer_with_source(source);
    assert!(slicer.is_tainted("user_id"));
}

#[test]
fn slicer_test_literal_is_not_tainted() {
    let source = r#"
status = "active"
query = f"SELECT * FROM users WHERE status = '{status}'"
"#;
    let (slicer, _) = create_slicer_with_source(source);
    assert!(!slicer.is_tainted("status"));
}

#[test]
fn slicer_test_transitive_taint() {
    let source = r#"
user_input = request.form.get('name')
sanitized = user_input
"#;
    let (slicer, _) = create_slicer_with_source(source);
    assert!(slicer.is_tainted("user_input"));
    assert!(slicer.is_tainted("sanitized"));
}

#[test]
fn slicer_test_parameter_is_tainted() {
    let source = r#"
def get_user(user_id):
    query = f"SELECT * FROM users WHERE id = {user_id}"
"#;
    let (slicer, _) = create_slicer_with_source(source);
    assert!(slicer.is_tainted("user_id"));
}

#[test]
fn slicer_test_multiple_params_tainted() {
    let source = r#"
def search_users(name, age, city):
    query = "test"
"#;
    let (slicer, _) = create_slicer_with_source(source);
    assert!(slicer.is_tainted("name"));
    assert!(slicer.is_tainted("age"));
    assert!(slicer.is_tainted("city"));
}

#[test]
fn slicer_test_derived_from_literal() {
    let source = r#"
base = "admin"
username = base + "_user"
"#;
    let (slicer, _) = create_slicer_with_source(source);
    assert!(!slicer.is_tainted("username"));
}

#[test]
fn slicer_test_mixed_taint() {
    let source = r#"
user_input = request.args.get('id')
constant = "users"
table_name = constant + user_input
"#;
    let (slicer, _) = create_slicer_with_source(source);
    assert!(slicer.is_tainted("table_name"));
}

#[test]
fn slicer_test_cycle_detection() {
    let source = r#"
a = b
b = c
c = a
"#;
    let (slicer, _) = create_slicer_with_source(source);
    let _ = slicer.is_tainted("a"); // Should not crash
}

#[test]
fn slicer_test_sys_argv_is_tainted() {
    let source = r#"
import sys
filename = sys.argv[1]
"#;
    let (slicer, _) = create_slicer_with_source(source);
    assert!(slicer.is_tainted("filename"));
}

#[test]
fn slicer_test_input_function_is_tainted() {
    let source = r#"
name = input("Enter your name: ")
"#;
    let (slicer, _) = create_slicer_with_source(source);
    assert!(slicer.is_tainted("name"));
}

#[test]
fn slicer_test_collects_simple_assignment() {
    let source = r#"
x = 5
"#;
    let (slicer, _) = create_slicer_with_source(source);
    assert!(!slicer.definitions().is_empty());
    assert!(slicer.has_definition("x"));
}

#[test]
fn slicer_test_collects_multiple_assignments() {
    let source = r#"
a = 1
b = 2
c = 3
"#;
    let (slicer, _) = create_slicer_with_source(source);
    assert_eq!(slicer.defined_names().len(), 3);
}

#[test]
fn slicer_test_collects_function_params() {
    let source = r#"
def process_data(input_data, sanitize=False):
    result = input_data.strip()
"#;
    let (slicer, _) = create_slicer_with_source(source);
    assert!(slicer.has_definition("input_data"));
    assert!(slicer.has_definition("sanitize"));
}

#[test]
fn slicer_test_identifies_flask_form_input() {
    let source = r#"
username = request.form['username']
"#;
    let (slicer, _) = create_slicer_with_source(source);
    assert!(slicer.tainted_names().iter().any(|n| n == "username"));
}

#[test]
fn slicer_test_empty_source() {
    let source = "";
    let (slicer, _) = create_slicer_with_source(source);
    assert!(slicer.definitions().is_empty());
    assert_eq!(slicer.tainted_names(), &vec!["request".to_string()]);
}

#[test]
fn slicer_test_only_comments() {
    let source = r#"
# This is a comment
"#;
    let (slicer, _) = create_slicer_with_source(source);
    assert!(slicer.definitions().is_empty());
}

#[test]
fn slicer_test_complex_expression() {
    let source = r#"
user_input = request.args.get('x')
result = (user_input * 2) + 10
"#;
    let (slicer, _) = create_slicer_with_source(source);
    assert!(slicer.is_tainted("result"));
}

#[test]
fn slicer_test_augmented_assignment() {
    let source = r#"
cmd = "ls"
user_input = request.args.get('path')
cmd += " " + user_input
"#;
    let (slicer, _) = create_slicer_with_source(source);
    assert!(slicer.is_tainted("cmd"));
}

#[test]
fn slicer_test_class_attribute() {
    let source = r#"
class User:
    def __init__(self, user_id):
        self.id = user_id
"#;
    let (slicer, _) = create_slicer_with_source(source);
    assert!(slicer.is_tainted("user_id"));
}

#[test]
fn slicer_test_lambda_params() {
    let source = r#"
execute = lambda query: cursor.execute(query)
"#;
    let (slicer, _) = create_slicer_with_source(source);
    assert!(slicer.is_tainted("query"));
}

#[test]
fn slicer_test_async_function_param() {
    let source = r#"
async def fetch_user(user_id):
    query = f"SELECT * FROM users WHERE id = {user_id}"
"#;
    let (slicer, _) = create_slicer_with_source(source);
    assert!(slicer.is_tainted("user_id"));
}

#[test]
fn slicer_test_for_loop_iterator() {
    let source = r#"
user_ids = request.json.get('ids')
for user_id in user_ids:
    query = f"SELECT * WHERE id = {user_id}"
"#;
    let (slicer, _) = create_slicer_with_source(source);
    assert!(slicer.is_tainted("user_ids"));
}

#[test]
fn slicer_test_if_condition() {
    let source = r#"
user_type = request.args.get('type')
if user_type == 'admin':
    query = f"SELECT * FROM admins WHERE type = '{user_type}'"
"#;
    let (slicer, _) = create_slicer_with_source(source);
    assert!(slicer.is_tainted("user_type"));
}

#[test]
fn slicer_test_ternary_expression() {
    let source = r#"
user_input = request.args.get('x')
value = user_input if user_input else "default"
"#;
    let (slicer, _) = create_slicer_with_source(source);
    assert!(slicer.is_tainted("value"));
}

#[test]
fn slicer_test_dictionary_value() {
    let source = r#"
user_id = request.args.get('id')
data = {"id": user_id, "name": "test"}
"#;
    let (slicer, _) = create_slicer_with_source(source);
    assert!(slicer.is_tainted("user_id"));
}

#[test]
fn slicer_test_list_element() {
    let source = r#"
user_id = request.args.get('id')
ids = [user_id, 2, 3]
"#;
    let (slicer, _) = create_slicer_with_source(source);
    assert!(slicer.is_tainted("user_id"));
}

#[test]
fn slicer_test_global_variable() {
    let source = r#"
global_user_id = None

def set_user(user_id):
    global global_user_id
    global_user_id = user_id
"#;
    let (slicer, _) = create_slicer_with_source(source);
    assert!(slicer.is_tainted("user_id"));
}

#[test]
fn test_nested_function_params() {
    let source = r#"
def outer(x):
    def inner(y):
        z = x + y
    return inner
"#;
    let (slicer, _) = create_slicer_with_source(source);
    assert!(slicer.is_tainted("x"));
    assert!(slicer.is_tainted("y"));
}

#[test]
fn slicer_test_decorator_function() {
    let source = r#"
@app.route('/api/user')
def get_user(user_id):
    return {"id": user_id}
"#;
    let (slicer, _) = create_slicer_with_source(source);
    assert!(slicer.is_tainted("user_id"));
}
