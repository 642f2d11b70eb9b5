//! The page that a browser loads to mirror the editor.

use vstd::prelude::*;

verus! {

/// The player page; `__MUSIC__` stands for the name of the music file.
pub const PLAYER_HTML: &'static str = r#"<!DOCTYPE html>
<html lang="zh">
<head>
<meta charset="utf-8">
<meta name="viewport" content="width=device-width, initial-scale=1, user-scalable=no">
<title>PhiMakor Player</title>
<style>
  html,body{margin:0;background:#000;height:100%;overflow:hidden}
  #screen{width:100vw;height:100vh;display:block}
  #ctrl{position:fixed;bottom:12px;left:50%;transform:translateX(-50%);
        display:flex;gap:8px;opacity:.35}
  #ctrl button{background:#222c;color:#fff;border:1px solid #555;border-radius:8px;
        padding:8px 16px;font-size:15px;touch-action:manipulation}
  #err{position:fixed;top:12px;left:50%;transform:translateX(-50%);color:#f88;font:13px sans-serif}
</style>
</head>
<body>
<canvas id="screen"></canvas>
<div id="ctrl">
  <button id="b-pause">⏯</button>
  <button id="b-back">⏮</button>
  <button id="b-fwd">⏭</button>
</div>
<div id="err"></div>
<script type="module">
import init, { handle_frame, handle_texture, start_stream } from "./pkg/phimakor_player.js";
await init();
const err = document.getElementById("err");
const fail = (m) => { err.textContent = m; console.error(m); };
// 音频:手机直接拉音乐文件(与画面粗略同步)。
const MUSIC = "__MUSIC__";
if (MUSIC) {
  const a = new Audio("/music/" + encodeURIComponent(MUSIC));
  a.loop = true;
  a.play().catch(() => {});
}
// WebSocket 快照流。
const ws = new WebSocket((location.protocol === "https:" ? "wss://" : "ws://") + location.host + "/ws");
ws.binaryType = "arraybuffer";
ws.onmessage = (ev) => {
  const bytes = new Uint8Array(ev.data);
  if (bytes[0] === 0x00) handle_texture(bytes);
  else if (bytes[0] === 0x01) handle_frame(bytes);
};
ws.onerror = () => fail("连接电脑失败 — 确认编辑器已开镜像服务");
ws.onclose = () => fail("连接已断开");
const send = (o) => { if (ws.readyState === 1) ws.send(JSON.stringify(o)); };
document.getElementById("b-pause").onclick = () => send({ a: "pause" });
document.getElementById("b-back").onclick = () => send({ a: "seek", t: 0 });
document.getElementById("b-fwd").onclick = () => send({ a: "seek", t: 99999 });
start_stream();
</script>
</body>
</html>"#;

} // verus!
