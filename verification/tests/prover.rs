use exploit_prover::prover::ExploitProver;
use exploit_prover::{ExploitStatus, SinkType};

#[test]
fn test_exploitable_sql_injection() {
    let source = r#"
from flask import Flask, request
import sqlite3

app = Flask(__name__)

@app.route('/user')
def get_user():
    user_id = request.args.get('id')
    conn = sqlite3.connect('db.sqlite')
    cursor = conn.cursor()
    query = f"SELECT * FROM users WHERE id = {user_id}"
    cursor.execute(query)
    return cursor.fetchone()
"#;
    let mut prover = ExploitProver::new().unwrap();
    let result = prover.analyze(source, &Vec::new(), 0);
    
    assert!(result.success);
    // The query is built from user input through an f-string; the sink must be reported.
    assert!(!result.sinks.is_empty(), "Should detect SQL sink");
}

#[test]
fn test_safe_parameterized_query() {
    let source = r#"
from flask import Flask, request
import sqlite3

app = Flask(__name__)

@app.route('/user')
def get_user():
    user_id = request.args.get('id')
    conn = sqlite3.connect('db.sqlite')
    cursor = conn.cursor()
    cursor.execute("SELECT * FROM users WHERE id = ?", (user_id,))
    return cursor.fetchone()
"#;
    let mut prover = ExploitProver::new().unwrap();
    let result = prover.analyze(source, &Vec::new(), 0);
    
    // Should still detect the sink but mark as potentially safe
    // (full safety proof requires constraint solving)
    assert!(result.success);
}

#[test]
fn prover_test_sqli_format_method() {
    let source = r#"
def get_user(uid):
    query = "SELECT * FROM users WHERE id = {}".format(uid)
    cursor.execute(query)
"#;
    let mut prover = ExploitProver::new().unwrap();
    let result = prover.analyze(source, &Vec::new(), 0);
    assert!(result.success);
    assert!(!result.sinks.is_empty());
}

#[test]
fn prover_test_sqli_percent_format() {
    let source = r#"
def get_user(uid):
    query = "SELECT * FROM users WHERE id = %s" % uid
    cursor.execute(query)
"#;
    let mut prover = ExploitProver::new().unwrap();
    let result = prover.analyze(source, &Vec::new(), 0);
    assert!(!result.sinks.is_empty());
}

#[test]
fn prover_test_sqli_concatenation() {
    let source = r#"
def get_user(uid):
    query = "SELECT * FROM users WHERE id = " + uid
    cursor.execute(query)
"#;
    let mut prover = ExploitProver::new().unwrap();
    let result = prover.analyze(source, &Vec::new(), 0);
    assert!(!result.sinks.is_empty());
}

#[test]
fn prover_test_sqli_executemany() {
    let source = r#"
def insert_many(data):
    query = f"INSERT INTO users VALUES ({data})"
    cursor.executemany(query, data)
"#;
    let mut prover = ExploitProver::new().unwrap();
    let result = prover.analyze(source, &Vec::new(), 0);
    assert!(!result.sinks.is_empty());
}

#[test]
fn test_sqli_multiline() {
    let source = r#"
def get_user(uid):
    query = f"""
        SELECT * FROM users
        WHERE id = {uid}
    """
    cursor.execute(query)
"#;
    let mut prover = ExploitProver::new().unwrap();
    let result = prover.analyze(source, &Vec::new(), 0);
    assert!(!result.sinks.is_empty());
}

#[test]
fn test_cmdi_os_system() {
    let source = r#"
import os
def ping(host):
    os.system(f"ping {host}")
"#;
    let mut prover = ExploitProver::new().unwrap();
    let result = prover.analyze(source, &Vec::new(), 0);
    assert!(!result.sinks.is_empty());
    assert_eq!(result.sinks[0].sink_type, SinkType::CommandInjection);
}

#[test]
fn prover_test_cmdi_os_popen() {
    let source = r#"
import os
def run(cmd):
    os.popen(cmd)
"#;
    let mut prover = ExploitProver::new().unwrap();
    let result = prover.analyze(source, &Vec::new(), 0);
    assert!(!result.sinks.is_empty());
}

#[test]
fn prover_test_cmdi_subprocess_call() {
    let source = r#"
import subprocess
def run(cmd):
    subprocess.call(cmd, shell=True)
"#;
    let mut prover = ExploitProver::new().unwrap();
    let result = prover.analyze(source, &Vec::new(), 0);
    assert!(!result.sinks.is_empty());
}

#[test]
fn prover_test_cmdi_subprocess_run() {
    let source = r#"
import subprocess
def run(cmd):
    subprocess.run(cmd, shell=True)
"#;
    let mut prover = ExploitProver::new().unwrap();
    let result = prover.analyze(source, &Vec::new(), 0);
    assert!(!result.sinks.is_empty());
}

#[test]
fn prover_test_cmdi_subprocess_popen() {
    let source = r#"
import subprocess
def run(cmd):
    subprocess.Popen(cmd, shell=True)
"#;
    let mut prover = ExploitProver::new().unwrap();
    let result = prover.analyze(source, &Vec::new(), 0);
    assert!(!result.sinks.is_empty());
}

#[test]
fn test_cmdi_check_output() {
    let source = r#"
import subprocess
def run(cmd):
    subprocess.check_output(cmd, shell=True)
"#;
    let mut prover = ExploitProver::new().unwrap();
    let result = prover.analyze(source, &Vec::new(), 0);
    assert!(!result.sinks.is_empty());
}

#[test]
fn test_codei_eval() {
    let source = r#"
def calc(expr):
    result = eval(expr)
"#;
    let mut prover = ExploitProver::new().unwrap();
    let result = prover.analyze(source, &Vec::new(), 0);
    assert!(!result.sinks.is_empty());
    assert_eq!(result.sinks[0].sink_type, SinkType::CodeInjection);
}

#[test]
fn test_codei_exec() {
    let source = r#"
def run(code):
    exec(code)
"#;
    let mut prover = ExploitProver::new().unwrap();
    let result = prover.analyze(source, &Vec::new(), 0);
    assert!(!result.sinks.is_empty());
}

#[test]
fn prover_test_codei_compile() {
    let source = r#"
def compile_code(code):
    compiled = compile(code, "<string>", "exec")
"#;
    let mut prover = ExploitProver::new().unwrap();
    let result = prover.analyze(source, &Vec::new(), 0);
    assert!(!result.sinks.is_empty());
}

#[test]
fn prover_test_deser_pickle_loads() {
    let source = r#"
import pickle
def load_data(data):
    obj = pickle.loads(data)
"#;
    let mut prover = ExploitProver::new().unwrap();
    let result = prover.analyze(source, &Vec::new(), 0);
    assert!(!result.sinks.is_empty());
    assert_eq!(result.sinks[0].sink_type, SinkType::Deserialization);
}

#[test]
fn prover_test_deser_pickle_load() {
    let source = r#"
import pickle
def load_file(f):
    obj = pickle.load(f)
"#;
    let mut prover = ExploitProver::new().unwrap();
    let result = prover.analyze(source, &Vec::new(), 0);
    assert!(!result.sinks.is_empty());
}

#[test]
fn prover_test_deser_yaml() {
    let source = r#"
import yaml
def load_config(data):
    obj = yaml.load(data)
"#;
    let mut prover = ExploitProver::new().unwrap();
    let result = prover.analyze(source, &Vec::new(), 0);
    assert!(!result.sinks.is_empty());
}

#[test]
fn prover_test_deser_marshal() {
    let source = r#"
import marshal
def load_bytecode(data):
    obj = marshal.loads(data)
"#;
    let mut prover = ExploitProver::new().unwrap();
    let result = prover.analyze(source, &Vec::new(), 0);
    assert!(!result.sinks.is_empty());
}

#[test]
fn test_multiple_sinks() {
    let source = r#"
def vuln1(x):
    cursor.execute(f"SELECT * WHERE id={x}")

def vuln2(y):
    os.system(y)

def vuln3(z):
    eval(z)
"#;
    let mut prover = ExploitProver::new().unwrap();
    let result = prover.analyze(source, &Vec::new(), 0);
    assert_eq!(result.sinks.len(), 3);
}

#[test]
fn test_mixed_safe_and_vulnerable() {
    let source = r#"
def safe():
    return "hello"

def unsafe(x):
    cursor.execute(f"SELECT * WHERE id={x}")
"#;
    let mut prover = ExploitProver::new().unwrap();
    let result = prover.analyze(source, &Vec::new(), 0);
    assert_eq!(result.sinks.len(), 1);
}

#[test]
fn test_nested_function() {
    let source = r#"
def outer():
    def inner(query):
        cursor.execute(query)
    return inner
"#;
    let mut prover = ExploitProver::new().unwrap();
    let result = prover.analyze(source, &Vec::new(), 0);
    assert!(!result.sinks.is_empty());
}

#[test]
fn test_class_method() {
    let source = r#"
class Database:
    def execute(self, query):
        self.cursor.execute(query)
"#;
    let mut prover = ExploitProver::new().unwrap();
    let result = prover.analyze(source, &Vec::new(), 0);
    assert!(!result.sinks.is_empty());
}

#[test]
fn test_async_function() {
    let source = r#"
async def fetch(user_id):
    query = f"SELECT * WHERE id = {user_id}"
    await cursor.execute(query)
"#;
    let mut prover = ExploitProver::new().unwrap();
    let result = prover.analyze(source, &Vec::new(), 0);
    assert!(!result.sinks.is_empty());
}

#[test]
fn test_lambda_expression() {
    let source = r#"
execute = lambda q: cursor.execute(q)
"#;
    let mut prover = ExploitProver::new().unwrap();
    let result = prover.analyze(source, &Vec::new(), 0);
    assert!(!result.sinks.is_empty());
}

#[test]
fn test_no_sinks_clean_code() {
    let source = r#"
def add(a, b):
    return a + b
"#;
    let mut prover = ExploitProver::new().unwrap();
    let result = prover.analyze(source, &Vec::new(), 0);
    assert_eq!(result.status, ExploitStatus::NoSinksFound);
}

#[test]
fn prover_test_empty_source() {
    let source = "";
    let mut prover = ExploitProver::new().unwrap();
    let result = prover.analyze(source, &Vec::new(), 0);
    assert_eq!(result.status, ExploitStatus::NoSinksFound);
}

#[test]
fn prover_test_comments_only() {
    let source = r#"
# cursor.execute(query) - this is a comment
"#;
    let mut prover = ExploitProver::new().unwrap();
    let result = prover.analyze(source, &Vec::new(), 0);
    assert_eq!(result.status, ExploitStatus::NoSinksFound);
}

#[test]
fn test_analysis_time_recorded() {
    let source = r#"
def test():
    cursor.execute("SELECT 1")
"#;
    let mut prover = ExploitProver::new().unwrap();
    let result = prover.analyze(source, &Vec::new(), 0);
    // Analysis time should be set (may be 0 for very fast execution)
    assert!(result.analysis_time_ms >= 0);
}

#[test]
fn test_explanation_provided() {
    let source = r#"
def test():
    pass
"#;
    let mut prover = ExploitProver::new().unwrap();
    let result = prover.analyze(source, &Vec::new(), 0);
    assert!(!result.explanation.is_empty());
}
