//! Rendering generated code as lines of RISC-V assembly text.
use vstd::prelude::*;
use vstd::string::StringExecFns;
use crate::codegen::{Insn, InsnV, Reg, insns_view};
use crate::text::{append_int, dec_int};

verus! {

/// The name of a register.
pub open spec fn reg_name(r: Reg) -> Seq<char> {
    match r {
        Reg::A0 => "a0"@,
        Reg::A1 => "a1"@,
        Reg::A2 => "a2"@,
        Reg::A3 => "a3"@,
        Reg::A4 => "a4"@,
        Reg::A5 => "a5"@,
    }
}

/// The name of a register.
pub fn reg_str(r: Reg) -> (s: &'static str)
    ensures
        s@ == reg_name(r),
{
    match r {
        Reg::A0 => "a0",
        Reg::A1 => "a1",
        Reg::A2 => "a2",
        Reg::A3 => "a3",
        Reg::A4 => "a4",
        Reg::A5 => "a5",
    }
}

/// The lines of assembly text of one instruction, with the comments that explain it;
/// the marks that start statements are comments only. A line may hold a line break.
pub open spec fn insn_lines(i: InsnV) -> Seq<Seq<char>> {
    match i {
        InsnV::Li { imm } => seq!["   # 将"@ + dec_int(imm as int) + "加载到a0中"@, "   li a0, "@ + dec_int(imm as int)],
        InsnV::Neg => seq!["   # 对a0值进行取反"@, "   neg a0, a0"@],
        InsnV::Push => seq!["   # 压栈,将a0的值存入栈顶"@, "   addi sp, sp, -8"@, "   sd a0, 0(sp)"@],
        InsnV::Pop { reg } => seq!["   # 弹栈，将栈顶的值存入"@ + reg_name(reg), "   ld "@ + reg_name(reg) + ", 0(sp)"@, "   addi sp, sp, 8"@],
        InsnV::AddrLocal { offset, name } => seq!["   # 获取变量"@ + name + "的栈内地址为"@ + dec_int(offset as int) + "(fp)"@, "   addi a0, fp, "@ + dec_int(offset as int)],
        InsnV::Load => seq!["   # 读取a0中存放的地址,得到的值存入a0"@, "   ld a0, 0(a0)"@],
        InsnV::Store => seq!["   # 将a0的值,写入到a1中存放的地址"@, "   sd a0, 0(a1)"@],
        InsnV::Add => seq!["   # a0+a1,结果写入a0"@, "   add a0, a0, a1"@],
        InsnV::Sub => seq!["   # a0-a1,结果写入a0"@, "   sub a0, a0, a1"@],
        InsnV::Mul => seq!["   # a0*a1,结果写入a0"@, "   mul a0, a0, a1"@],
        InsnV::Div => seq!["   # a0/a1,结果写入a0"@, "   div a0, a0, a1"@],
        InsnV::Xor => seq!["   # 判断a0和a1的相等情况"@, "   xor a0, a0, a1"@],
        InsnV::Seqz => seq!["   seqz a0, a0"@],
        InsnV::Snez => seq!["   snez a0, a0"@],
        InsnV::Slt => seq!["   # 判断a0<a1"@, "   slt a0, a0, a1"@],
        InsnV::SltSwapped => seq!["   # 判断a0<=a1"@, "   slt a0, a1, a0"@],
        InsnV::XoriOne => seq!["   xori a0, a0, 1"@],
        InsnV::Call { name } => seq!["\n   # 调用函数"@ + name, "   call "@ + name],
        InsnV::BeqzElse { c } => seq!["  beqz a0, .L.else."@ + dec_int(c as int), "\n# Then语句"@ + dec_int(c as int)],
        InsnV::BeqzEnd { c } => seq!["   # 若a0为0,则跳转到循环"@ + dec_int(c as int) + "的.L.end."@ + dec_int(c as int) + "段"@, "   beqz a0, .L.end."@ + dec_int(c as int)],
        InsnV::JEnd { c } => seq!["  # 跳转到分支"@ + dec_int(c as int) + "的.L.end."@ + dec_int(c as int) + "段\n"@, "  j .L.end."@ + dec_int(c as int)],
        InsnV::JBegin { c } => seq!["   # 跳转到循环"@ + dec_int(c as int) + "的.L.begin."@ + dec_int(c as int) + "段"@, "   j .L.begin."@ + dec_int(c as int)],
        InsnV::JReturn { name } => seq!["  # 跳转到.L.return."@ + name + "段"@, "  j .L.return."@ + name],
        InsnV::LabelElse { c } => seq!["\n# Else语句"@ + dec_int(c as int), "# 分支"@ + dec_int(c as int) + "的.L.else."@ + dec_int(c as int) + "段标签\n"@, ".L.else."@ + dec_int(c as int) + ":"@],
        InsnV::LabelEnd { c } => seq!["\n# 分支"@ + dec_int(c as int) + "的.L.end."@ + dec_int(c as int) + "段标签"@, ".L.end."@ + dec_int(c as int) + ":"@],
        InsnV::LabelBegin { c } => seq!["\n# 循环"@ + dec_int(c as int) + "的.L.begin."@ + dec_int(c as int) + "段标签"@, ".L.begin."@ + dec_int(c as int) + ":"@, "# Cond表达式"@ + dec_int(c as int)],
        InsnV::LabelLoopEnd { c } => seq!["\n# 循环"@ + dec_int(c as int) + "的.L.end."@ + dec_int(c as int) + "段标签"@, ".L.end."@ + dec_int(c as int) + ":"@],
        InsnV::IfStart { c } => seq!["\n# =====分支语句"@ + dec_int(c as int) + "=============="@, "\n# Cond表达式"@ + dec_int(c as int)],
        InsnV::ForStart { c, init } => seq!["\n# =====循环语句"@ + dec_int(c as int) + "==============="@] + if init {
            seq!["\n# Init语句"@ + dec_int(c as int)]
        } else {
            Seq::empty()
        },
        InsnV::ForBody { c } => seq!["\n# Then语句"@ + dec_int(c as int)],
        InsnV::ForInc { c } => seq!["\n# Inc语句"@ + dec_int(c as int)],
        InsnV::ReturnStart => seq!["# 返回语句"@],
        InsnV::LabelReturn { name } => seq!["# ====="@ + name + "段结束==============="@, "# return段标签"@, ".L.return."@ + name + ":"@],
        InsnV::Globl { name } => seq!["   #定义全局"@ + name + "段"@, "   .globl "@ + name],
        InsnV::FuncLabel { name } => seq!["# ====="@ + name + "段开始===============\n"@, "# "@ + name + "段标签"@, name + ":"@],
        InsnV::Prologue { stack_size } => seq!["  # 将ra寄存器压栈,保存ra的值"@, "  addi sp, sp, -16"@, "  sd ra, 8(sp)"@, "   # 将fp压栈,fp属于“被调用者保存”的寄存器,需要恢复原值"@, "   sd fp, 0(sp)"@, "   # 将sp的值写入fp"@, "   mv fp, sp"@, "   # sp腾出StackSize大小的栈空间"@, "   addi sp, sp, -"@ + dec_int(stack_size as int), "\n# =====程序主体==============="@],
        InsnV::Epilogue => seq!["   # 将fp的值写回sp"@, "   mv sp, fp"@, "   # 将最早fp保存的值弹栈，恢复fp和sp"@, "   ld fp, 0(sp)"@, "   # 将ra寄存器弹栈,恢复ra的值"@, "   ld ra, 8(sp)"@, "   addi sp, sp, 16"@, "  # 返回a0值给系统调用"@, "  ret"@],
    }
}

/// The lines of assembly text of a sequence of instructions, in order.
pub open spec fn code_lines(s: Seq<InsnV>) -> Seq<Seq<char>>
    decreases s.len(),
{
    if s.len() == 0 {
        Seq::empty()
    } else {
        code_lines(s.drop_last()) + insn_lines(s.last())
    }
}

/// Rendering is line by line: the lines of two pieces of code, one after the other,
/// are the lines of the first followed by the lines of the second.
pub proof fn lemma_code_lines_append(a: Seq<InsnV>, b: Seq<InsnV>)
    ensures
        code_lines(a + b) == code_lines(a) + code_lines(b),
    decreases b.len(),
{
    if b.len() == 0 {
        assert(a + b =~= a);
        assert(code_lines(a) + code_lines(b) =~= code_lines(a));
    } else {
        lemma_code_lines_append(a, b.drop_last());
        assert((a + b).drop_last() =~= a + b.drop_last());
        assert((a + b).last() == b.last());
        assert(code_lines(a) + code_lines(b.drop_last()) + insn_lines(b.last()) =~= code_lines(a)
            + (code_lines(b.drop_last()) + insn_lines(b.last())));
    }
}

/// The views of a sequence of strings.
pub open spec fn strings_view(s: Seq<String>) -> Seq<Seq<char>> {
    s.map_values(|x: String| x@)
}

/// The lines of assembly text of one instruction.
pub fn render_insn(i: &Insn) -> (lines: Vec<String>)
    ensures
        strings_view(lines@) == insn_lines(i@),
{
    let mut lines: Vec<String> = Vec::new();
    match i {
        Insn::Li { imm } => {
            {
                let mut s = String::from_str("   # 将");
                append_int(&mut s, *imm as i64);
                s.append("加载到a0中");
                lines.push(s);
            }
            {
                let mut s = String::from_str("   li a0, ");
                append_int(&mut s, *imm as i64);
                lines.push(s);
            }
            proof {
                assert(strings_view(lines@) =~= insn_lines(i@));
            }
        },
        Insn::Neg => {
            {
                lines.push(String::from_str("   # 对a0值进行取反"));
            }
            {
                lines.push(String::from_str("   neg a0, a0"));
            }
            proof {
                assert(strings_view(lines@) =~= insn_lines(i@));
            }
        },
        Insn::Push => {
            {
                lines.push(String::from_str("   # 压栈,将a0的值存入栈顶"));
            }
            {
                lines.push(String::from_str("   addi sp, sp, -8"));
            }
            {
                lines.push(String::from_str("   sd a0, 0(sp)"));
            }
            proof {
                assert(strings_view(lines@) =~= insn_lines(i@));
            }
        },
        Insn::Pop { reg } => {
            {
                let mut s = String::from_str("   # 弹栈，将栈顶的值存入");
                s.append(reg_str(*reg));
                lines.push(s);
            }
            {
                let mut s = String::from_str("   ld ");
                s.append(reg_str(*reg));
                s.append(", 0(sp)");
                lines.push(s);
            }
            {
                lines.push(String::from_str("   addi sp, sp, 8"));
            }
            proof {
                assert(strings_view(lines@) =~= insn_lines(i@));
            }
        },
        Insn::AddrLocal { offset, name } => {
            {
                let mut s = String::from_str("   # 获取变量");
                s.append(name.as_str());
                s.append("的栈内地址为");
                append_int(&mut s, *offset as i64);
                s.append("(fp)");
                lines.push(s);
            }
            {
                let mut s = String::from_str("   addi a0, fp, ");
                append_int(&mut s, *offset as i64);
                lines.push(s);
            }
            proof {
                assert(strings_view(lines@) =~= insn_lines(i@));
            }
        },
        Insn::Load => {
            {
                lines.push(String::from_str("   # 读取a0中存放的地址,得到的值存入a0"));
            }
            {
                lines.push(String::from_str("   ld a0, 0(a0)"));
            }
            proof {
                assert(strings_view(lines@) =~= insn_lines(i@));
            }
        },
        Insn::Store => {
            {
                lines.push(String::from_str("   # 将a0的值,写入到a1中存放的地址"));
            }
            {
                lines.push(String::from_str("   sd a0, 0(a1)"));
            }
            proof {
                assert(strings_view(lines@) =~= insn_lines(i@));
            }
        },
        Insn::Add => {
            {
                lines.push(String::from_str("   # a0+a1,结果写入a0"));
            }
            {
                lines.push(String::from_str("   add a0, a0, a1"));
            }
            proof {
                assert(strings_view(lines@) =~= insn_lines(i@));
            }
        },
        Insn::Sub => {
            {
                lines.push(String::from_str("   # a0-a1,结果写入a0"));
            }
            {
                lines.push(String::from_str("   sub a0, a0, a1"));
            }
            proof {
                assert(strings_view(lines@) =~= insn_lines(i@));
            }
        },
        Insn::Mul => {
            {
                lines.push(String::from_str("   # a0*a1,结果写入a0"));
            }
            {
                lines.push(String::from_str("   mul a0, a0, a1"));
            }
            proof {
                assert(strings_view(lines@) =~= insn_lines(i@));
            }
        },
        Insn::Div => {
            {
                lines.push(String::from_str("   # a0/a1,结果写入a0"));
            }
            {
                lines.push(String::from_str("   div a0, a0, a1"));
            }
            proof {
                assert(strings_view(lines@) =~= insn_lines(i@));
            }
        },
        Insn::Xor => {
            {
                lines.push(String::from_str("   # 判断a0和a1的相等情况"));
            }
            {
                lines.push(String::from_str("   xor a0, a0, a1"));
            }
            proof {
                assert(strings_view(lines@) =~= insn_lines(i@));
            }
        },
        Insn::Seqz => {
            {
                lines.push(String::from_str("   seqz a0, a0"));
            }
            proof {
                assert(strings_view(lines@) =~= insn_lines(i@));
            }
        },
        Insn::Snez => {
            {
                lines.push(String::from_str("   snez a0, a0"));
            }
            proof {
                assert(strings_view(lines@) =~= insn_lines(i@));
            }
        },
        Insn::Slt => {
            {
                lines.push(String::from_str("   # 判断a0<a1"));
            }
            {
                lines.push(String::from_str("   slt a0, a0, a1"));
            }
            proof {
                assert(strings_view(lines@) =~= insn_lines(i@));
            }
        },
        Insn::SltSwapped => {
            {
                lines.push(String::from_str("   # 判断a0<=a1"));
            }
            {
                lines.push(String::from_str("   slt a0, a1, a0"));
            }
            proof {
                assert(strings_view(lines@) =~= insn_lines(i@));
            }
        },
        Insn::XoriOne => {
            {
                lines.push(String::from_str("   xori a0, a0, 1"));
            }
            proof {
                assert(strings_view(lines@) =~= insn_lines(i@));
            }
        },
        Insn::Call { name } => {
            {
                let mut s = String::from_str("\n   # 调用函数");
                s.append(name.as_str());
                lines.push(s);
            }
            {
                let mut s = String::from_str("   call ");
                s.append(name.as_str());
                lines.push(s);
            }
            proof {
                assert(strings_view(lines@) =~= insn_lines(i@));
            }
        },
        Insn::BeqzElse { c } => {
            {
                let mut s = String::from_str("  beqz a0, .L.else.");
                append_int(&mut s, *c as i64);
                lines.push(s);
            }
            {
                let mut s = String::from_str("\n# Then语句");
                append_int(&mut s, *c as i64);
                lines.push(s);
            }
            proof {
                assert(strings_view(lines@) =~= insn_lines(i@));
            }
        },
        Insn::BeqzEnd { c } => {
            {
                let mut s = String::from_str("   # 若a0为0,则跳转到循环");
                append_int(&mut s, *c as i64);
                s.append("的.L.end.");
                append_int(&mut s, *c as i64);
                s.append("段");
                lines.push(s);
            }
            {
                let mut s = String::from_str("   beqz a0, .L.end.");
                append_int(&mut s, *c as i64);
                lines.push(s);
            }
            proof {
                assert(strings_view(lines@) =~= insn_lines(i@));
            }
        },
        Insn::JEnd { c } => {
            {
                let mut s = String::from_str("  # 跳转到分支");
                append_int(&mut s, *c as i64);
                s.append("的.L.end.");
                append_int(&mut s, *c as i64);
                s.append("段\n");
                lines.push(s);
            }
            {
                let mut s = String::from_str("  j .L.end.");
                append_int(&mut s, *c as i64);
                lines.push(s);
            }
            proof {
                assert(strings_view(lines@) =~= insn_lines(i@));
            }
        },
        Insn::JBegin { c } => {
            {
                let mut s = String::from_str("   # 跳转到循环");
                append_int(&mut s, *c as i64);
                s.append("的.L.begin.");
                append_int(&mut s, *c as i64);
                s.append("段");
                lines.push(s);
            }
            {
                let mut s = String::from_str("   j .L.begin.");
                append_int(&mut s, *c as i64);
                lines.push(s);
            }
            proof {
                assert(strings_view(lines@) =~= insn_lines(i@));
            }
        },
        Insn::JReturn { name } => {
            {
                let mut s = String::from_str("  # 跳转到.L.return.");
                s.append(name.as_str());
                s.append("段");
                lines.push(s);
            }
            {
                let mut s = String::from_str("  j .L.return.");
                s.append(name.as_str());
                lines.push(s);
            }
            proof {
                assert(strings_view(lines@) =~= insn_lines(i@));
            }
        },
        Insn::LabelElse { c } => {
            {
                let mut s = String::from_str("\n# Else语句");
                append_int(&mut s, *c as i64);
                lines.push(s);
            }
            {
                let mut s = String::from_str("# 分支");
                append_int(&mut s, *c as i64);
                s.append("的.L.else.");
                append_int(&mut s, *c as i64);
                s.append("段标签\n");
                lines.push(s);
            }
            {
                let mut s = String::from_str(".L.else.");
                append_int(&mut s, *c as i64);
                s.append(":");
                lines.push(s);
            }
            proof {
                assert(strings_view(lines@) =~= insn_lines(i@));
            }
        },
        Insn::LabelEnd { c } => {
            {
                let mut s = String::from_str("\n# 分支");
                append_int(&mut s, *c as i64);
                s.append("的.L.end.");
                append_int(&mut s, *c as i64);
                s.append("段标签");
                lines.push(s);
            }
            {
                let mut s = String::from_str(".L.end.");
                append_int(&mut s, *c as i64);
                s.append(":");
                lines.push(s);
            }
            proof {
                assert(strings_view(lines@) =~= insn_lines(i@));
            }
        },
        Insn::LabelBegin { c } => {
            {
                let mut s = String::from_str("\n# 循环");
                append_int(&mut s, *c as i64);
                s.append("的.L.begin.");
                append_int(&mut s, *c as i64);
                s.append("段标签");
                lines.push(s);
            }
            {
                let mut s = String::from_str(".L.begin.");
                append_int(&mut s, *c as i64);
                s.append(":");
                lines.push(s);
            }
            {
                let mut s = String::from_str("# Cond表达式");
                append_int(&mut s, *c as i64);
                lines.push(s);
            }
            proof {
                assert(strings_view(lines@) =~= insn_lines(i@));
            }
        },
        Insn::LabelLoopEnd { c } => {
            {
                let mut s = String::from_str("\n# 循环");
                append_int(&mut s, *c as i64);
                s.append("的.L.end.");
                append_int(&mut s, *c as i64);
                s.append("段标签");
                lines.push(s);
            }
            {
                let mut s = String::from_str(".L.end.");
                append_int(&mut s, *c as i64);
                s.append(":");
                lines.push(s);
            }
            proof {
                assert(strings_view(lines@) =~= insn_lines(i@));
            }
        },
        Insn::IfStart { c } => {
            {
                let mut s = String::from_str("\n# =====分支语句");
                append_int(&mut s, *c as i64);
                s.append("==============");
                lines.push(s);
            }
            {
                let mut s = String::from_str("\n# Cond表达式");
                append_int(&mut s, *c as i64);
                lines.push(s);
            }
            proof {
                assert(strings_view(lines@) =~= insn_lines(i@));
            }
        },
        Insn::ForStart { c, init } => {
            {
                let mut s = String::from_str("\n# =====循环语句");
                append_int(&mut s, *c as i64);
                s.append("===============");
                lines.push(s);
            }
            if *init {
                {
                    let mut s = String::from_str("\n# Init语句");
                    append_int(&mut s, *c as i64);
                    lines.push(s);
                }
            }
            proof {
                assert(strings_view(lines@) =~= insn_lines(i@));
            }
        },
        Insn::ForBody { c } => {
            {
                let mut s = String::from_str("\n# Then语句");
                append_int(&mut s, *c as i64);
                lines.push(s);
            }
            proof {
                assert(strings_view(lines@) =~= insn_lines(i@));
            }
        },
        Insn::ForInc { c } => {
            {
                let mut s = String::from_str("\n# Inc语句");
                append_int(&mut s, *c as i64);
                lines.push(s);
            }
            proof {
                assert(strings_view(lines@) =~= insn_lines(i@));
            }
        },
        Insn::ReturnStart => {
            {
                lines.push(String::from_str("# 返回语句"));
            }
            proof {
                assert(strings_view(lines@) =~= insn_lines(i@));
            }
        },
        Insn::LabelReturn { name } => {
            {
                let mut s = String::from_str("# =====");
                s.append(name.as_str());
                s.append("段结束===============");
                lines.push(s);
            }
            {
                lines.push(String::from_str("# return段标签"));
            }
            {
                let mut s = String::from_str(".L.return.");
                s.append(name.as_str());
                s.append(":");
                lines.push(s);
            }
            proof {
                assert(strings_view(lines@) =~= insn_lines(i@));
            }
        },
        Insn::Globl { name } => {
            {
                let mut s = String::from_str("   #定义全局");
                s.append(name.as_str());
                s.append("段");
                lines.push(s);
            }
            {
                let mut s = String::from_str("   .globl ");
                s.append(name.as_str());
                lines.push(s);
            }
            proof {
                assert(strings_view(lines@) =~= insn_lines(i@));
            }
        },
        Insn::FuncLabel { name } => {
            {
                let mut s = String::from_str("# =====");
                s.append(name.as_str());
                s.append("段开始===============\n");
                lines.push(s);
            }
            {
                let mut s = String::from_str("# ");
                s.append(name.as_str());
                s.append("段标签");
                lines.push(s);
            }
            {
                let mut s = String::new();
                s.append(name.as_str());
                s.append(":");
                lines.push(s);
            }
            proof {
                assert(strings_view(lines@) =~= insn_lines(i@));
            }
        },
        Insn::Prologue { stack_size } => {
            {
                lines.push(String::from_str("  # 将ra寄存器压栈,保存ra的值"));
            }
            {
                lines.push(String::from_str("  addi sp, sp, -16"));
            }
            {
                lines.push(String::from_str("  sd ra, 8(sp)"));
            }
            {
                lines.push(String::from_str("   # 将fp压栈,fp属于“被调用者保存”的寄存器,需要恢复原值"));
            }
            {
                lines.push(String::from_str("   sd fp, 0(sp)"));
            }
            {
                lines.push(String::from_str("   # 将sp的值写入fp"));
            }
            {
                lines.push(String::from_str("   mv fp, sp"));
            }
            {
                lines.push(String::from_str("   # sp腾出StackSize大小的栈空间"));
            }
            {
                let mut s = String::from_str("   addi sp, sp, -");
                append_int(&mut s, *stack_size as i64);
                lines.push(s);
            }
            {
                lines.push(String::from_str("\n# =====程序主体==============="));
            }
            proof {
                assert(strings_view(lines@) =~= insn_lines(i@));
            }
        },
        Insn::Epilogue => {
            {
                lines.push(String::from_str("   # 将fp的值写回sp"));
            }
            {
                lines.push(String::from_str("   mv sp, fp"));
            }
            {
                lines.push(String::from_str("   # 将最早fp保存的值弹栈，恢复fp和sp"));
            }
            {
                lines.push(String::from_str("   ld fp, 0(sp)"));
            }
            {
                lines.push(String::from_str("   # 将ra寄存器弹栈,恢复ra的值"));
            }
            {
                lines.push(String::from_str("   ld ra, 8(sp)"));
            }
            {
                lines.push(String::from_str("   addi sp, sp, 16"));
            }
            {
                lines.push(String::from_str("  # 返回a0值给系统调用"));
            }
            {
                lines.push(String::from_str("  ret"));
            }
        },
    }
    lines
}

/// The lines of assembly text of the code, in order.
pub fn render(code: &Vec<Insn>) -> (lines: Vec<String>)
    ensures
        strings_view(lines@) == code_lines(insns_view(code@)),
{
    let mut lines: Vec<String> = Vec::new();
    let n = code.len();
    let mut i: usize = 0;
    while i < n
        invariant
            n == code@.len(),
            i <= n,
            strings_view(lines@) == code_lines(insns_view(code@).take(i as int)),
        decreases n - i,
    {
        let more = render_insn(&code[i]);
        let ghost before = strings_view(lines@);
        let m = more.len();
        let mut j: usize = 0;
        while j < m
            invariant
                m == more@.len(),
                j <= m,
                strings_view(lines@) == before + strings_view(more@).take(j as int),
            decreases m - j,
        {
            let line = more[j].clone();
            let ghost prev = lines@;
            lines.push(line);
            proof {
                assert(line@ == strings_view(more@)[j as int]);
                assert(strings_view(lines@) =~= strings_view(prev).push(line@));
                assert(strings_view(more@).take(j + 1) =~= strings_view(more@).take(j as int).push(line@));
            }
            j = j + 1;
        }
        proof {
            let t = insns_view(code@).take(i + 1);
            assert(t.drop_last() =~= insns_view(code@).take(i as int));
            assert(strings_view(lines@) =~= code_lines(t));
        }
        i = i + 1;
    }
    proof {
        assert(insns_view(code@).take(n as int) =~= insns_view(code@));
    }
    lines
}

} // verus!
