use lib::ast::{Function, Node, NodeKind, Obj, Program};
use lib::codegen::{align_to, assign_lvar_offsets, codegen, gen_asm, init_regs, sync_node_offsets, Codegen, CodegenError, Insn, Reg};
use lib::lexer::{tokenize, Token, TokenKind, V};
use lib::parser::{parser, paser};
use lib::render::{reg_str, render, render_insn};
use lib::typecheck::{Type, TypeKind};
use lib::precheck::can_codegen;
use lib::diagnostic::verror_at;

fn punct(s: &str, loc: usize) -> Token {
    Token { kind: TokenKind::TkPunct, value: Some(V::Str(s.to_string())), loc, len: s.len() }
}

fn ident(s: &str, loc: usize) -> Token {
    Token { kind: TokenKind::TkIdent, value: Some(V::Str(s.to_string())), loc, len: s.len() }
}

fn keyword(s: &str, loc: usize) -> Token {
    Token { kind: TokenKind::TkKeyword, value: Some(V::Str(s.to_string())), loc, len: s.len() }
}

fn num(n: i32, loc: usize) -> Token {
    Token { kind: TokenKind::TkNum, value: Some(V::Int(n)), loc, len: 1 }
}

fn eof(loc: usize) -> Token {
    Token { kind: TokenKind::TKEof, value: None, loc, len: 0 }
}

fn int_ty() -> Type {
    Type::new(TypeKind::Int)
}

/// Runs straight-line expression code on a machine with a stack and a memory, and
/// returns `a0` and the stack depth at the end.
fn run(code: &[Insn], fp: i64, mem: &mut Vec<(i64, i64)>) -> (i64, usize) {
    let (mut a0, mut a1) = (0i64, 0i64);
    let mut stack: Vec<i64> = Vec::new();
    for i in code {
        match i {
            Insn::Li { imm } => a0 = *imm as i64,
            Insn::Neg => a0 = a0.wrapping_neg(),
            Insn::Push => stack.push(a0),
            Insn::Pop { reg: Reg::A1 } => a1 = stack.pop().unwrap(),
            Insn::Pop { reg: Reg::A0 } => a0 = stack.pop().unwrap(),
            Insn::AddrLocal { offset, .. } => a0 = fp + *offset as i64,
            Insn::IfStart { .. } | Insn::ForStart { .. } | Insn::ForBody { .. } | Insn::ForInc { .. } | Insn::ReturnStart => {}
            Insn::Load => a0 = mem.iter().rev().find(|(k, _)| *k == a0).map(|(_, v)| *v).unwrap_or(0),
            Insn::Store => mem.push((a1, a0)),
            Insn::Add => a0 = a0.wrapping_add(a1),
            Insn::Sub => a0 = a0.wrapping_sub(a1),
            Insn::Mul => a0 = a0.wrapping_mul(a1),
            Insn::Div => a0 = if a1 == 0 { -1 } else { a0.wrapping_div(a1) },
            Insn::Xor => a0 ^= a1,
            Insn::Seqz => a0 = (a0 == 0) as i64,
            Insn::Snez => a0 = (a0 != 0) as i64,
            Insn::Slt => a0 = (a0 < a1) as i64,
            Insn::SltSwapped => a0 = (a1 < a0) as i64,
            Insn::XoriOne => a0 ^= 1,
            Insn::JReturn { .. } => break,
            other => panic!("not straight-line code: {:?}", other),
        }
    }
    (a0, stack.len())
}

/// The lines of rendered assembly that are instructions or labels, without the comments.
fn instructions(lines: Vec<String>) -> Vec<String> {
    lines.into_iter().filter(|l| !l.trim_start().starts_with('#')).collect()
}

fn asm_of(src: &str) -> Vec<Insn> {
    let ts = tokenize(src).unwrap();
    let n = paser(&ts).unwrap();
    let mut out = Vec::new();
    gen_asm(&n, &mut out).unwrap();
    out
}

fn eval(src: &str) -> i64 {
    let code = asm_of(src);
    let (a0, depth) = run(&code, 0, &mut Vec::new());
    assert_eq!(depth, 0);
    a0
}

#[test]
fn align_to_rounds_up() {
    assert_eq!(align_to(0, 16), 0);
    assert_eq!(align_to(1, 16), 16);
    assert_eq!(align_to(8, 16), 16);
    assert_eq!(align_to(16, 16), 16);
    assert_eq!(align_to(17, 16), 32);
    assert_eq!(align_to(24, 8), 24);
}

#[test]
fn init_regs_lists_argument_registers() {
    assert_eq!(init_regs(), vec![Reg::A0, Reg::A1, Reg::A2, Reg::A3, Reg::A4, Reg::A5]);
    let names: Vec<&str> = init_regs().into_iter().map(reg_str).collect();
    assert_eq!(names, vec!["a0", "a1", "a2", "a3", "a4", "a5"]);
}

#[test]
fn gen_asm_of_a_sum() {
    let code = asm_of("1+2");
    assert_eq!(
        code,
        vec![
            Insn::Li { imm: 2 },
            Insn::Push,
            Insn::Li { imm: 1 },
            Insn::Pop { reg: Reg::A1 },
            Insn::Add
        ]
    );
    let lines = render(&code);
    assert_eq!(
        lines,
        vec![
            "   # 将2加载到a0中",
            "   li a0, 2",
            "   # 压栈,将a0的值存入栈顶",
            "   addi sp, sp, -8",
            "   sd a0, 0(sp)",
            "   # 将1加载到a0中",
            "   li a0, 1",
            "   # 弹栈，将栈顶的值存入a1",
            "   ld a1, 0(sp)",
            "   addi sp, sp, 8",
            "   # a0+a1,结果写入a0",
            "   add a0, a0, a1"
        ]
    );
    assert_eq!(
        instructions(lines),
        vec![
            "   li a0, 2",
            "   addi sp, sp, -8",
            "   sd a0, 0(sp)",
            "   li a0, 1",
            "   ld a1, 0(sp)",
            "   addi sp, sp, 8",
            "   add a0, a0, a1"
        ]
    );
}

#[test]
fn expression_code_computes_its_value() {
    assert_eq!(eval("1+2*3"), 7);
    assert_eq!(eval("(1+2)*3"), 9);
    assert_eq!(eval("10-4-3"), 3);
    assert_eq!(eval("-7/2"), -3);
    assert_eq!(eval("-(3-5)"), 2);
    assert_eq!(eval("5/0"), -1);
    assert_eq!(eval("1<2"), 1);
    assert_eq!(eval("2<1"), 0);
    assert_eq!(eval("2<=2"), 1);
    assert_eq!(eval("3<=2"), 0);
    assert_eq!(eval("3>2"), 1);
    assert_eq!(eval("2>=3"), 0);
    assert_eq!(eval("4==4"), 1);
    assert_eq!(eval("4==5"), 0);
    assert_eq!(eval("4!=5"), 1);
    assert_eq!(eval("(1<2)+(3==3)*10"), 11);
    assert_eq!(eval("2147483647*2"), 4294967294);
}

#[test]
fn gen_asm_rejects_an_assignment() {
    let assign = Node::new_binary(NodeKind::NdAssign, Node::new_num(2, &num(2, 0)), Node::new_num(1, &num(1, 4)), &punct("=", 2));
    let mut out = Vec::new();
    let r = gen_asm(&assign, &mut out);
    assert_eq!(r, Err(CodegenError::InvalidExpression { loc: 2 }));
    assert_eq!(out, vec![Insn::Li { imm: 1 }, Insn::Push, Insn::Li { imm: 2 }, Insn::Pop { reg: Reg::A1 }]);
}

#[test]
fn expression_code_with_variables() {
    // *&a = 5: the address of a, the value, and a store through the popped address.
    let a = || Node::new_var(Obj::new("a".to_string(), -8, &int_ty()), &punct("a", 0));
    let place = Node::new_unary(NodeKind::NdDeref, Node::new_unary(NodeKind::NdAddr, a(), &punct("&", 0)), &punct("*", 0));
    let assign = Node::new_binary(NodeKind::NdAssign, place, Node::new_num(5, &num(5, 0)), &punct("=", 0));
    let read = Node::new_binary(NodeKind::NdAdd, a(), Node::new_num(1, &num(1, 0)), &punct("+", 0));
    let mut cg = Codegen::new();
    assert_eq!(cg.gen_expr(&assign), Ok(()));
    assert_eq!(cg.gen_expr(&read), Ok(()));
    let mut mem = Vec::new();
    let (a0, depth) = run(&cg.out, 1000, &mut mem);
    assert_eq!((a0, depth), (6, 0));
    assert_eq!(mem, vec![(992, 5)]);
}

#[test]
fn gen_addr_of_a_number_is_not_an_lvalue() {
    let mut n = Node::new_num(3, &num(3, 6));
    n.name = Some("3".to_string());
    let addr = Node::new_unary(NodeKind::NdAddr, n, &punct("&", 5));
    let mut cg = Codegen::new();
    assert_eq!(cg.gen_expr(&addr), Err(CodegenError::NotAnLvalue { loc: 6, name: "3".to_string() }));
    assert!(cg.out.is_empty());
}

#[test]
fn statement_that_is_not_one() {
    let mut cg = Codegen::new();
    let n = Node::new_node(NodeKind::NdEmpty);
    assert_eq!(cg.gen_stmt(&n), Err(CodegenError::InvalidStatement { loc: 0 }));
}

#[test]
fn count_numbers_labels_from_one() {
    let mut cg = Codegen::new();
    assert_eq!(cg.count(), 1);
    assert_eq!(cg.count(), 2);
    assert_eq!(cg.label, 3);
}

#[test]
fn push_and_pop() {
    let mut cg = Codegen::new();
    cg.push();
    cg.pop(Reg::A2);
    assert_eq!(cg.out, vec![Insn::Push, Insn::Pop { reg: Reg::A2 }]);
    let lines: Vec<String> = cg.out.iter().flat_map(|i| render_insn(i)).collect();
    assert_eq!(instructions(lines), vec!["   addi sp, sp, -8", "   sd a0, 0(sp)", "   ld a2, 0(sp)", "   addi sp, sp, 8"]);
}

fn if_else() -> Box<Node> {
    let mut n = Node::new_node(NodeKind::NdIf);
    n.cond = Some(Node::new_num(1, &num(1, 0)));
    n.then_stmt = Some(Node::new_unary(NodeKind::NdExprStmt, Node::new_num(2, &num(2, 0)), &num(2, 0)));
    n.els = Some(Node::new_unary(NodeKind::NdExprStmt, Node::new_num(3, &num(3, 0)), &num(3, 0)));
    n
}

#[test]
fn if_statement_code() {
    let mut cg = Codegen::new();
    assert_eq!(cg.gen_stmt(&if_else()), Ok(()));
    assert_eq!(
        instructions(render(&cg.out)),
        vec![
            "   li a0, 1",
            "  beqz a0, .L.else.1",
            "   li a0, 2",
            "  j .L.end.1",
            ".L.else.1:",
            "   li a0, 3",
            ".L.end.1:"
        ]
    );
    assert_eq!(cg.label, 2);
}

#[test]
fn for_statement_code() {
    let mut n = Node::new_node(NodeKind::NdFor);
    n.init = Some(Node::new_unary(NodeKind::NdExprStmt, Node::new_num(0, &num(0, 0)), &num(0, 0)));
    n.cond = Some(Node::new_num(1, &num(1, 0)));
    n.then_stmt = Some(if_else());
    n.inc = Some(Node::new_num(4, &num(4, 0)));
    let mut cg = Codegen::new();
    assert_eq!(cg.gen_stmt(&n), Ok(()));
    assert_eq!(
        instructions(render(&cg.out)),
        vec![
            "   li a0, 0",
            ".L.begin.1:",
            "   li a0, 1",
            "   beqz a0, .L.end.1",
            "   li a0, 1",
            "  beqz a0, .L.else.2",
            "   li a0, 2",
            "  j .L.end.2",
            ".L.else.2:",
            "   li a0, 3",
            ".L.end.2:",
            "   li a0, 4",
            "   j .L.begin.1",
            ".L.end.1:"
        ]
    );
    assert_eq!(cg.label, 3);
}

#[test]
fn call_pops_arguments_into_registers() {
    let mut call = Node::new_node(NodeKind::NdFuncall);
    call.funcname = "f".to_string();
    let mut first = Node::new_num(1, &num(1, 0));
    first.next = Some(Node::new_num(2, &num(2, 0)));
    call.args = Some(first);
    let mut cg = Codegen::new();
    assert_eq!(cg.gen_expr(&call), Ok(()));
    assert_eq!(
        cg.out,
        vec![
            Insn::Li { imm: 1 },
            Insn::Push,
            Insn::Li { imm: 2 },
            Insn::Push,
            Insn::Pop { reg: Reg::A1 },
            Insn::Pop { reg: Reg::A0 },
            Insn::Call { name: "f".to_string() }
        ]
    );
}

#[test]
fn locals_get_frame_offsets() {
    let mut f = Function::new();
    f.add_local_var("a".to_string(), &int_ty());
    f.add_local_var("b".to_string(), &int_ty());
    f.add_local_var("c".to_string(), &int_ty());
    let mut body = Node::new_node(NodeKind::NdBlock);
    let mut b = Node::new_var(Obj::new("b".to_string(), 0, &int_ty()), &punct("b", 0));
    b.var = None;
    body.body = Some(Node::new_unary(NodeKind::NdExprStmt, b, &punct("b", 0)));
    f.body = Some(body);
    let f = assign_lvar_offsets(f);
    let offsets: Vec<i32> = f.locals.iter().map(|o| o.offset).collect();
    assert_eq!(offsets, vec![-24, -16, -8]);
    assert_eq!(f.stack_size, 32);
    let stmt = f.body.as_ref().unwrap().body.as_ref().unwrap();
    assert_eq!(stmt.lhs.as_ref().unwrap().var.as_ref().unwrap().offset, -16);
}

#[test]
fn sync_leaves_unknown_names_alone() {
    let locals = vec![Obj::new("x".to_string(), -8, &int_ty())];
    let mut n = Node::new_binary(
        NodeKind::NdAdd,
        Node::new_var(Obj::new("x".to_string(), 0, &int_ty()), &punct("x", 0)),
        Node::new_var(Obj::new("y".to_string(), -40, &int_ty()), &punct("y", 0)),
        &punct("+", 0),
    );
    sync_node_offsets(&mut n, &locals);
    assert_eq!(n.lhs.as_ref().unwrap().var.as_ref().unwrap().offset, -8);
    assert_eq!(n.rhs.as_ref().unwrap().var.as_ref().unwrap().offset, -40);
}

#[test]
fn whole_program() {
    // { a = 3; return a + 1; }
    let ts = vec![
        punct("{", 0),
        ident("a", 2),
        punct("=", 4),
        num(3, 6),
        punct(";", 7),
        keyword("return", 9),
        ident("a", 16),
        punct("+", 18),
        num(1, 20),
        punct(";", 21),
        punct("}", 23),
        eof(24),
    ];
    let mut f = parser(&ts).unwrap();
    f.name = "main".to_string();
    let mut prog = Program::new();
    prog.funclist.push(f);
    let (code, r) = codegen(prog);
    assert_eq!(r, Ok(()));
    assert_eq!(
        instructions(render(&code)),
        vec![
            "   .globl main",
            "main:",
            "  addi sp, sp, -16",
            "  sd ra, 8(sp)",
            "   sd fp, 0(sp)",
            "   mv fp, sp",
            "   addi sp, sp, -16",
            "   addi a0, fp, -8",
            "   addi sp, sp, -8",
            "   sd a0, 0(sp)",
            "   li a0, 3",
            "   ld a1, 0(sp)",
            "   addi sp, sp, 8",
            "   sd a0, 0(a1)",
            "   li a0, 1",
            "   addi sp, sp, -8",
            "   sd a0, 0(sp)",
            "   addi a0, fp, -8",
            "   ld a0, 0(a0)",
            "   ld a1, 0(sp)",
            "   addi sp, sp, 8",
            "   add a0, a0, a1",
            "  j .L.return.main",
            ".L.return.main:",
            "   mv sp, fp",
            "   ld fp, 0(sp)",
            "   ld ra, 8(sp)",
            "   addi sp, sp, 16",
            "  ret"
        ]
    );
}

#[test]
fn program_of_numbers_only() {
    let ts = tokenize("{ 1; {2;} }").unwrap();
    let mut f = parser(&ts).unwrap();
    f.name = "main".to_string();
    let mut prog = Program::new();
    prog.funclist.push(f);
    let (code, r) = codegen(prog);
    assert_eq!(r, Ok(()));
    assert_eq!(code[2], Insn::Prologue { stack_size: 0 });
    assert_eq!(code[3], Insn::Li { imm: 1 });
    assert_eq!(code[4], Insn::Li { imm: 2 });
    assert_eq!(code[5], Insn::LabelReturn { name: "main".to_string() });
    assert_eq!(code.len(), 7);
}

#[test]
fn codegen_stops_at_an_invalid_statement() {
    let mut f = Function::new();
    f.name = "g".to_string();
    let mut body = Node::new_node(NodeKind::NdBlock);
    let mut s1 = Node::new_unary(NodeKind::NdExprStmt, Node::new_num(7, &num(7, 0)), &num(7, 0));
    let mut bad = Node::new_node(NodeKind::NdNum);
    bad.tokloc = 11;
    s1.next = Some(bad);
    body.body = Some(s1);
    f.body = Some(body);
    let mut prog = Program::new();
    prog.funclist.push(f);
    let (code, r) = codegen(prog);
    assert_eq!(r, Err(CodegenError::InvalidStatement { loc: 11 }));
    assert_eq!(code.len(), 4);
    assert_eq!(code[3], Insn::Li { imm: 7 });
}

#[test]
fn labels_continue_across_functions() {
    let mut prog = Program::new();
    for name in ["f", "g"] {
        let mut f = Function::new();
        f.name = name.to_string();
        let mut body = Node::new_node(NodeKind::NdBlock);
        body.body = Some(if_else());
        f.body = Some(body);
        prog.funclist.push(f);
    }
    let (code, r) = codegen(prog);
    assert_eq!(r, Ok(()));
    let lines = render(&code);
    assert!(lines.contains(&"  beqz a0, .L.else.1".to_string()));
    assert!(lines.contains(&"  beqz a0, .L.else.2".to_string()));
    assert!(lines.contains(&".L.return.g:".to_string()));
}

#[test]
fn rendering_of_each_kind_of_line() {
    let cases = vec![
        (Insn::Li { imm: -5 }, vec!["   # 将-5加载到a0中", "   li a0, -5"]),
        (Insn::Neg, vec!["   # 对a0值进行取反", "   neg a0, a0"]),
        (Insn::Push, vec!["   # 压栈,将a0的值存入栈顶", "   addi sp, sp, -8", "   sd a0, 0(sp)"]),
        (Insn::Pop { reg: Reg::A3 }, vec!["   # 弹栈，将栈顶的值存入a3", "   ld a3, 0(sp)", "   addi sp, sp, 8"]),
        (
            Insn::AddrLocal { offset: -24, name: "x".to_string() },
            vec!["   # 获取变量x的栈内地址为-24(fp)", "   addi a0, fp, -24"],
        ),
        (Insn::Load, vec!["   # 读取a0中存放的地址,得到的值存入a0", "   ld a0, 0(a0)"]),
        (Insn::Store, vec!["   # 将a0的值,写入到a1中存放的地址", "   sd a0, 0(a1)"]),
        (Insn::Add, vec!["   # a0+a1,结果写入a0", "   add a0, a0, a1"]),
        (Insn::Sub, vec!["   # a0-a1,结果写入a0", "   sub a0, a0, a1"]),
        (Insn::Mul, vec!["   # a0*a1,结果写入a0", "   mul a0, a0, a1"]),
        (Insn::Div, vec!["   # a0/a1,结果写入a0", "   div a0, a0, a1"]),
        (Insn::Xor, vec!["   # 判断a0和a1的相等情况", "   xor a0, a0, a1"]),
        (Insn::Seqz, vec!["   seqz a0, a0"]),
        (Insn::Snez, vec!["   snez a0, a0"]),
        (Insn::Slt, vec!["   # 判断a0<a1", "   slt a0, a0, a1"]),
        (Insn::SltSwapped, vec!["   # 判断a0<=a1", "   slt a0, a1, a0"]),
        (Insn::XoriOne, vec!["   xori a0, a0, 1"]),
        (Insn::Call { name: "f".to_string() }, vec!["\n   # 调用函数f", "   call f"]),
        (Insn::BeqzElse { c: 2 }, vec!["  beqz a0, .L.else.2", "\n# Then语句2"]),
        (Insn::BeqzEnd { c: 2 }, vec!["   # 若a0为0,则跳转到循环2的.L.end.2段", "   beqz a0, .L.end.2"]),
        (Insn::JEnd { c: 2 }, vec!["  # 跳转到分支2的.L.end.2段\n", "  j .L.end.2"]),
        (Insn::JBegin { c: 2 }, vec!["   # 跳转到循环2的.L.begin.2段", "   j .L.begin.2"]),
        (Insn::JReturn { name: "m".to_string() }, vec!["  # 跳转到.L.return.m段", "  j .L.return.m"]),
        (Insn::LabelElse { c: 2 }, vec!["\n# Else语句2", "# 分支2的.L.else.2段标签\n", ".L.else.2:"]),
        (Insn::LabelEnd { c: 2 }, vec!["\n# 分支2的.L.end.2段标签", ".L.end.2:"]),
        (Insn::LabelBegin { c: 2 }, vec!["\n# 循环2的.L.begin.2段标签", ".L.begin.2:", "# Cond表达式2"]),
        (Insn::LabelLoopEnd { c: 2 }, vec!["\n# 循环2的.L.end.2段标签", ".L.end.2:"]),
        (Insn::IfStart { c: 2 }, vec!["\n# =====分支语句2==============", "\n# Cond表达式2"]),
        (Insn::ForStart { c: 2, init: true }, vec!["\n# =====循环语句2===============", "\n# Init语句2"]),
        (Insn::ForStart { c: 2, init: false }, vec!["\n# =====循环语句2==============="]),
        (Insn::ForBody { c: 2 }, vec!["\n# Then语句2"]),
        (Insn::ForInc { c: 2 }, vec!["\n# Inc语句2"]),
        (Insn::ReturnStart, vec!["# 返回语句"]),
        (Insn::LabelReturn { name: "m".to_string() }, vec!["# =====m段结束===============", "# return段标签", ".L.return.m:"]),
        (Insn::Globl { name: "m".to_string() }, vec!["   #定义全局m段", "   .globl m"]),
        (Insn::FuncLabel { name: "m".to_string() }, vec!["# =====m段开始===============\n", "# m段标签", "m:"]),
        (
            Insn::Prologue { stack_size: 32 },
            vec![
                "  # 将ra寄存器压栈,保存ra的值",
                "  addi sp, sp, -16",
                "  sd ra, 8(sp)",
                "   # 将fp压栈,fp属于“被调用者保存”的寄存器,需要恢复原值",
                "   sd fp, 0(sp)",
                "   # 将sp的值写入fp",
                "   mv fp, sp",
                "   # sp腾出StackSize大小的栈空间",
                "   addi sp, sp, -32",
                "\n# =====程序主体===============",
            ],
        ),
        (
            Insn::Epilogue,
            vec![
                "   # 将fp的值写回sp",
                "   mv sp, fp",
                "   # 将最早fp保存的值弹栈，恢复fp和sp",
                "   ld fp, 0(sp)",
                "   # 将ra寄存器弹栈,恢复ra的值",
                "   ld ra, 8(sp)",
                "   addi sp, sp, 16",
                "  # 返回a0值给系统调用",
                "  ret",
            ],
        ),
    ];
    for (insn, expected) in cases {
        assert_eq!(render_insn(&insn), expected);
    }
}

fn program_with(stmt: Box<Node>) -> Program {
    let mut f = Function::new();
    f.name = "main".to_string();
    let mut body = Node::new_node(NodeKind::NdBlock);
    body.body = Some(stmt);
    f.body = Some(body);
    let mut prog = Program::new();
    prog.funclist.push(f);
    prog
}

#[test]
fn parsed_programs_can_be_compiled() {
    let ts = tokenize("{ 1+2; {3;} ; }").unwrap();
    let mut f = parser(&ts).unwrap();
    f.name = "main".to_string();
    let mut prog = Program::new();
    prog.funclist.push(f);
    assert!(can_codegen(&prog));
    assert!(can_codegen(&Program::new()));
}

#[test]
fn assignment_to_an_unnamed_place_cannot_be_compiled() {
    let sum = Node::new_binary(NodeKind::NdAdd, Node::new_num(1, &num(1, 0)), Node::new_num(2, &num(2, 2)), &punct("+", 1));
    let assign = Node::new_binary(NodeKind::NdAssign, sum, Node::new_num(3, &num(3, 6)), &punct("=", 4));
    let prog = program_with(Node::new_unary(NodeKind::NdExprStmt, assign, &punct("=", 4)));
    assert!(!can_codegen(&prog));
}

#[test]
fn assignment_to_a_number_is_an_error_not_a_gap() {
    let assign = Node::new_binary(NodeKind::NdAssign, Node::new_num(1, &num(1, 0)), Node::new_num(3, &num(3, 4)), &punct("=", 2));
    let prog = program_with(Node::new_unary(NodeKind::NdExprStmt, assign, &punct("=", 2)));
    assert!(can_codegen(&prog));
    let (_, r) = codegen(prog);
    assert_eq!(r, Err(CodegenError::NotAnLvalue { loc: 0, name: "1".to_string() }));
}

#[test]
fn gaps_that_code_generation_cannot_pass() {
    let mut no_then = Node::new_node(NodeKind::NdIf);
    no_then.cond = Some(Node::new_num(1, &num(1, 0)));
    assert!(!can_codegen(&program_with(no_then)));

    let mut unbound = Node::new_var(Obj::new("v".to_string(), -8, &int_ty()), &punct("v", 0));
    unbound.var = None;
    unbound.name = None;
    assert!(!can_codegen(&program_with(Node::new_unary(NodeKind::NdExprStmt, unbound, &punct("v", 0)))));

    let mut call = Node::new_node(NodeKind::NdFuncall);
    call.funcname = "f".to_string();
    let mut args: Option<Box<Node>> = None;
    for k in 0..7 {
        let mut a = Node::new_num(k, &num(k, 0));
        a.next = args;
        args = Some(a);
    }
    call.args = args;
    assert!(!can_codegen(&program_with(Node::new_unary(NodeKind::NdExprStmt, call, &punct("f", 0)))));

    let mut no_body = Function::new();
    no_body.name = "f".to_string();
    let mut prog = Program::new();
    prog.funclist.push(no_body);
    assert!(!can_codegen(&prog));
}

#[test]
fn diagnostic_points_at_the_offset() {
    let (source, pointer) = verror_at("1 + $", 4, "Unexpected character '$'");
    assert_eq!(source, "1 + $");
    assert_eq!(pointer, "    ^Unexpected character '$'");
    let (_, at_start) = verror_at("x", 0, "here");
    assert_eq!(at_start, "^here");
}

#[test]
fn body_code_returns_the_value_of_the_first_return() {
    // { a = 3; b = a * 2; return b + a; a = 1; }
    let ts = vec![
        punct("{", 0),
        ident("a", 1),
        punct("=", 2),
        num(3, 3),
        punct(";", 4),
        ident("b", 5),
        punct("=", 6),
        ident("a", 7),
        punct("*", 8),
        num(2, 9),
        punct(";", 10),
        keyword("return", 11),
        ident("b", 18),
        punct("+", 19),
        ident("a", 20),
        punct(";", 21),
        ident("a", 22),
        punct("=", 23),
        num(1, 24),
        punct(";", 25),
        punct("}", 26),
        eof(27),
    ];
    let mut f = parser(&ts).unwrap();
    f.name = "main".to_string();
    let mut prog = Program::new();
    prog.funclist.push(f);
    assert!(can_codegen(&prog));
    let (code, r) = codegen(prog);
    assert_eq!(r, Ok(()));
    assert_eq!(code[2], Insn::Prologue { stack_size: 16 });
    let end = code.iter().position(|i| matches!(i, Insn::LabelReturn { .. })).unwrap();
    let body = &code[3..end];
    let mut mem = Vec::new();
    let (a0, depth) = run(body, 4096, &mut mem);
    assert_eq!((a0, depth), (9, 0));
    // a at -16, b at -8; the assignment after the return never runs.
    assert_eq!(mem, vec![(4080, 3), (4088, 6)]);
}

#[test]
fn looking_variables_up_twice_changes_nothing() {
    let locals = vec![Obj::new("x".to_string(), -8, &int_ty()), Obj::new("y".to_string(), -16, &int_ty())];
    let mut n = Node::new_binary(
        NodeKind::NdAssign,
        Node::new_var(Obj::new("y".to_string(), 0, &int_ty()), &punct("y", 0)),
        Node::new_var(Obj::new("x".to_string(), 0, &int_ty()), &punct("x", 0)),
        &punct("=", 0),
    );
    sync_node_offsets(&mut n, &locals);
    let once = n.copy();
    sync_node_offsets(&mut n, &locals);
    assert_eq!(*n, once);
    assert_eq!(n.lhs.as_ref().unwrap().var.as_ref().unwrap().offset, -16);
}

#[test]
fn rendering_is_line_by_line() {
    let a = vec![Insn::Li { imm: 1 }, Insn::Push];
    let b = vec![Insn::Pop { reg: Reg::A1 }, Insn::Epilogue];
    let mut ab = asm_of("2*3");
    let mut ab_lines = render(&ab);
    ab.extend(asm_of("4"));
    ab_lines.extend(render(&asm_of("4")));
    assert_eq!(render(&ab), ab_lines);
    let mut both = render(&a);
    both.extend(render(&b));
    let mut joined = a;
    joined.extend(b);
    assert_eq!(render(&joined), both);
}

#[test]
fn no_label_is_defined_twice() {
    let mut inner = Node::new_node(NodeKind::NdFor);
    inner.then_stmt = Some(if_else());
    let mut outer = Node::new_node(NodeKind::NdIf);
    outer.cond = Some(Node::new_num(0, &num(0, 0)));
    outer.then_stmt = Some(inner);
    outer.els = Some(if_else());
    let mut body = Node::new_node(NodeKind::NdBlock);
    let mut first = if_else();
    first.next = Some(outer);
    body.body = Some(first);
    let mut f = Function::new();
    f.name = "main".to_string();
    f.body = Some(body);
    let mut prog = Program::new();
    prog.funclist.push(f);
    let (code, r) = codegen(prog);
    assert_eq!(r, Ok(()));
    let labels: Vec<String> = render(&code).into_iter().filter(|l| l.starts_with(".L.") && !l.starts_with(".L.return")).collect();
    let mut sorted = labels.clone();
    sorted.sort();
    sorted.dedup();
    assert_eq!(sorted.len(), labels.len());
    assert_eq!(labels.len(), 10);
}

/// Runs the body of the first function of `code`, branches included, until it returns
/// or reaches the return label; gives `a0`.
fn run_with_branches(code: &[Insn], fp: i64) -> i64 {
    let find = |want: &dyn Fn(&Insn) -> bool| code.iter().position(|i| want(i)).unwrap();
    let (mut a0, mut a1) = (0i64, 0i64);
    let mut stack: Vec<i64> = Vec::new();
    let mut mem: Vec<(i64, i64)> = Vec::new();
    let mut pc = 3;
    let mut fuel = 100_000;
    loop {
        fuel -= 1;
        assert!(fuel > 0);
        match &code[pc] {
            Insn::JReturn { .. } | Insn::LabelReturn { .. } => return a0,
            Insn::LabelElse { .. } | Insn::LabelEnd { .. } | Insn::LabelBegin { .. } | Insn::LabelLoopEnd { .. } => pc += 1,
            Insn::BeqzElse { c } => {
                pc = if a0 == 0 { find(&|i| *i == Insn::LabelElse { c: *c }) } else { pc + 1 }
            }
            Insn::BeqzEnd { c } => {
                pc = if a0 == 0 { find(&|i| *i == Insn::LabelLoopEnd { c: *c }) } else { pc + 1 }
            }
            Insn::JEnd { c } => pc = find(&|i| *i == Insn::LabelEnd { c: *c }),
            Insn::JBegin { c } => pc = find(&|i| *i == Insn::LabelBegin { c: *c }),
            other => {
                match other {
                    Insn::Li { imm } => a0 = *imm as i64,
                    Insn::AddrLocal { offset, .. } => a0 = fp + *offset as i64,
                    Insn::IfStart { .. } | Insn::ForStart { .. } | Insn::ForBody { .. } | Insn::ForInc { .. } | Insn::ReturnStart => {}
                    Insn::Push => stack.push(a0),
                    Insn::Pop { reg: Reg::A1 } => a1 = stack.pop().unwrap(),
                    Insn::Pop { reg: Reg::A0 } => a0 = stack.pop().unwrap(),
                    Insn::Load => a0 = mem.iter().rev().find(|(k, _)| *k == a0).map(|(_, v)| *v).unwrap_or(0),
                    Insn::Store => mem.push((a1, a0)),
                    Insn::Add => a0 = a0.wrapping_add(a1),
                    Insn::Sub => a0 = a0.wrapping_sub(a1),
                    Insn::Mul => a0 = a0.wrapping_mul(a1),
                    Insn::Div => a0 = if a1 == 0 { -1 } else { a0.wrapping_div(a1) },
                    Insn::Neg => a0 = a0.wrapping_neg(),
                    Insn::Xor => a0 ^= a1,
                    Insn::Seqz => a0 = (a0 == 0) as i64,
                    Insn::Snez => a0 = (a0 != 0) as i64,
                    Insn::Slt => a0 = (a0 < a1) as i64,
                    Insn::SltSwapped => a0 = (a1 < a0) as i64,
                    Insn::XoriOne => a0 ^= 1,
                    x => panic!("unexpected instruction {:?}", x),
                }
                pc += 1;
            }
        }
    }
}

fn var_node(name: &str) -> Box<Node> {
    let mut v = Node::new_var(Obj::new(name.to_string(), 0, &int_ty()), &punct(name, 0));
    v.var = None;
    v
}

fn assign_node(name: &str, e: Box<Node>) -> Box<Node> {
    Node::new_binary(NodeKind::NdAssign, var_node(name), e, &punct("=", 0))
}

fn stmt_node(e: Box<Node>) -> Box<Node> {
    Node::new_unary(NodeKind::NdExprStmt, e, &punct(";", 0))
}

fn bin(kind: NodeKind, l: Box<Node>, r: Box<Node>) -> Box<Node> {
    Node::new_binary(kind, l, r, &punct("+", 0))
}

fn lit(v: i32) -> Box<Node> {
    Node::new_num(v, &num(v, 0))
}

#[test]
fn loop_sums_the_first_ten_numbers() {
    // { i=0; j=0; for (i=0; i<=10; i=i+1) j=i+j; return j; }
    let mut f = Function::new();
    f.name = "main".to_string();
    f.add_local_var("i".to_string(), &int_ty());
    f.add_local_var("j".to_string(), &int_ty());
    let mut lp = Node::new_node(NodeKind::NdFor);
    lp.init = Some(stmt_node(assign_node("i", lit(0))));
    lp.cond = Some(bin(NodeKind::NdLe, var_node("i"), lit(10)));
    lp.inc = Some(assign_node("i", bin(NodeKind::NdAdd, var_node("i"), lit(1))));
    lp.then_stmt = Some(stmt_node(assign_node("j", bin(NodeKind::NdAdd, var_node("i"), var_node("j")))));
    let mut ret = Node::new_unary(NodeKind::NdReturn, var_node("j"), &punct("return", 0));
    ret.next = None;
    lp.next = Some(ret);
    let mut s2 = stmt_node(assign_node("j", lit(0)));
    s2.next = Some(lp);
    let mut s1 = stmt_node(assign_node("i", lit(0)));
    s1.next = Some(s2);
    let mut body = Node::new_node(NodeKind::NdBlock);
    body.body = Some(s1);
    f.body = Some(body);
    let mut prog = Program::new();
    prog.funclist.push(f);
    assert!(can_codegen(&prog));
    let (code, r) = codegen(prog);
    assert_eq!(r, Ok(()));
    assert_eq!(run_with_branches(&code, 4096), 55);
}

#[test]
fn if_takes_the_branch_its_condition_selects() {
    for (cond, expected) in [(1, 2), (0, 3)] {
        let mut n = Node::new_node(NodeKind::NdIf);
        n.cond = Some(lit(cond));
        n.then_stmt = Some(Node::new_unary(NodeKind::NdReturn, lit(2), &punct("return", 0)));
        n.els = Some(Node::new_unary(NodeKind::NdReturn, lit(3), &punct("return", 0)));
        let mut body = Node::new_node(NodeKind::NdBlock);
        body.body = Some(n);
        let mut f = Function::new();
        f.name = "main".to_string();
        f.body = Some(body);
        let mut prog = Program::new();
        prog.funclist.push(f);
        let (code, r) = codegen(prog);
        assert_eq!(r, Ok(()));
        assert_eq!(run_with_branches(&code, 4096), expected);
    }
}

#[test]
fn codegen_error_messages_and_places() {
    assert_eq!(CodegenError::NotAnLvalue { loc: 4, name: "7".to_string() }.message(), "7 not an lvalue");
    assert_eq!(CodegenError::InvalidExpression { loc: 5 }.message(), "invalid expression here");
    assert_eq!(CodegenError::InvalidStatement { loc: 6 }.message(), "invalid statement here");
    assert_eq!(CodegenError::NotAnLvalue { loc: 4, name: "7".to_string() }.loc(), 4);
    assert_eq!(CodegenError::InvalidExpression { loc: 5 }.loc(), 5);
    assert_eq!(CodegenError::InvalidStatement { loc: 6 }.loc(), 6);
}

#[test]
fn looking_variables_up_reaches_call_arguments() {
    let locals = vec![Obj::new("x".to_string(), -24, &int_ty())];
    let mut call = Node::new_node(NodeKind::NdFuncall);
    call.funcname = "f".to_string();
    let mut first = Node::new_num(1, &num(1, 0));
    first.next = Some(Node::new_var(Obj::new("x".to_string(), 0, &int_ty()), &punct("x", 0)));
    call.args = Some(first);
    let mut stmt = Node::new_unary(NodeKind::NdExprStmt, call, &punct("f", 0));
    sync_node_offsets(&mut stmt, &locals);
    let call = stmt.lhs.as_ref().unwrap();
    let arg = call.args.as_ref().unwrap().next.as_ref().unwrap();
    assert_eq!(arg.var.as_ref().unwrap().offset, -24);
    assert_eq!(call.args.as_ref().unwrap().val, Some(1));
}

#[test]
fn align_to_up_to_the_largest_frame() {
    assert_eq!(align_to(2147483632, 16), 2147483632);
    assert_eq!(align_to(2147483625, 8), 2147483632);
    assert_eq!(align_to(0, 16), 0);
    assert_eq!(align_to(24, 16), 32);
}

#[test]
fn expression_code_with_calls_keeps_the_stack_balanced() {
    // f(1, g(2) + 3) * 4
    let mut g = Node::new_node(NodeKind::NdFuncall);
    g.funcname = "g".to_string();
    g.args = Some(Node::new_num(2, &num(2, 0)));
    let sum = Node::new_binary(NodeKind::NdAdd, g, Node::new_num(3, &num(3, 0)), &punct("+", 0));
    let mut first = Node::new_num(1, &num(1, 0));
    first.next = Some(sum);
    let mut f = Node::new_node(NodeKind::NdFuncall);
    f.funcname = "f".to_string();
    f.args = Some(first);
    let e = Node::new_binary(NodeKind::NdMul, f, Node::new_num(4, &num(4, 0)), &punct("*", 0));
    let mut cg = Codegen::new();
    assert_eq!(cg.gen_expr(&e), Ok(()));
    let mut depth = 0i64;
    for i in &cg.out {
        match i {
            Insn::Push => depth += 1,
            Insn::Pop { .. } => {
                depth -= 1;
                assert!(depth >= 0);
            }
            _ => {}
        }
    }
    assert_eq!(depth, 0);
    assert_eq!(cg.out.iter().filter(|i| matches!(i, Insn::Call { .. })).count(), 2);
}

#[test]
fn successive_counts_from_a_fresh_generator() {
    let mut cg = Codegen::new();
    let got: Vec<i32> = (0..5).map(|_| cg.count()).collect();
    assert_eq!(got, vec![1, 2, 3, 4, 5]);
}
