//! The page that plays a recording: its style, its frame, the drawing code and the
//! playback code.

use vstd::prelude::*;

verus! {

/// The style of an embedded player.
pub const SHELL_STYLE: &'static str = r#"<style>
  #replay-root{background:#0b1020;color:#e5e7eb;font:13px/1.5 ui-monospace,Menlo,Consolas,monospace;border-radius:10px;padding:6px;}
  .rp-head{padding:8px 10px;border-bottom:1px solid #334155;}
  .rp-head b{font-size:15px;} .rp-muted{color:#94a3b8;}
  .rp-legend span{margin-right:12px;} .rp-dot{display:inline-block;width:10px;height:10px;border-radius:50%;vertical-align:middle;margin-right:4px;}
  .rp-wrap{display:flex;gap:10px;padding:10px;align-items:flex-start;flex-wrap:wrap;}
  .rp-board canvas{background:#070b16;border:1px solid #334155;border-radius:6px;max-width:100%;height:auto;}
  .rp-side{flex:1;min-width:260px;display:flex;flex-direction:column;gap:10px;}
  .rp-panel{background:#111827;border:1px solid #334155;border-radius:6px;padding:8px;max-height:300px;overflow:auto;}
  .rp-panel h3{margin:0 0 6px;font-size:11px;color:#94a3b8;text-transform:uppercase;letter-spacing:.05em;}
  .rp-unit{display:flex;align-items:center;gap:6px;padding:2px 0;border-bottom:1px solid #1f2937;white-space:nowrap;}
  .rp-bar{display:inline-block;width:46px;height:6px;background:#1f2937;border-radius:3px;overflow:hidden;vertical-align:middle;}
  .rp-bar i{display:block;height:6px;}
  .rp-comp{color:#cbd5e1;} .rp-events div{white-space:pre-wrap;border-bottom:1px solid #1f2937;padding:2px 0;}
  .rp-ctrl{display:flex;gap:8px;align-items:center;padding:8px 10px;border-top:1px solid #334155;}
  .rp-ctrl input[type=range]{flex:1;} .rp-ctrl button{background:#1f2937;color:#e5e7eb;border:1px solid #334155;border-radius:4px;padding:4px 10px;cursor:pointer;}
</style>"#;

/// The head of a page of its own, up to the player.
pub const SHELL_HEAD: &'static str = r#"<!doctype html>
<html lang="en"><head><meta charset="utf-8"><title>Combat replay</title>
<style>
  body{margin:0;background:#0b1020;color:#e5e7eb;font:13px/1.5 ui-monospace,Menlo,Consolas,monospace;}
  #replay-root{padding:0;}
  .rp-head{padding:8px 12px;border-bottom:1px solid #334155;}
  .rp-head b{font-size:15px;} .rp-muted{color:#94a3b8;}
  .rp-legend span{margin-right:12px;} .rp-dot{display:inline-block;width:10px;height:10px;border-radius:50%;vertical-align:middle;margin-right:4px;}
  .rp-wrap{display:flex;gap:12px;padding:12px;align-items:flex-start;flex-wrap:wrap;}
  .rp-board canvas{background:#070b16;border:1px solid #334155;border-radius:6px;}
  .rp-side{width:340px;display:flex;flex-direction:column;gap:10px;}
  .rp-panel{background:#111827;border:1px solid #334155;border-radius:6px;padding:8px;max-height:360px;overflow:auto;}
  .rp-panel h3{margin:0 0 6px;font-size:11px;color:#94a3b8;text-transform:uppercase;letter-spacing:.05em;}
  .rp-unit{display:flex;align-items:center;gap:6px;padding:2px 0;border-bottom:1px solid #1f2937;white-space:nowrap;}
  .rp-bar{display:inline-block;width:46px;height:6px;background:#1f2937;border-radius:3px;overflow:hidden;vertical-align:middle;}
  .rp-bar i{display:block;height:6px;}
  .rp-comp{color:#cbd5e1;} .rp-events div{white-space:pre-wrap;border-bottom:1px solid #1f2937;padding:2px 0;}
  .rp-ctrl{display:flex;gap:8px;align-items:center;padding:8px 12px;border-top:1px solid #334155;position:sticky;bottom:0;background:#0b1020;}
  .rp-ctrl input[type=range]{flex:1;} .rp-ctrl button{background:#1f2937;color:#e5e7eb;border:1px solid #334155;border-radius:4px;padding:4px 10px;cursor:pointer;}
</style></head><body><div id="replay-root">"#;

/// The controls of the player.
pub const SHELL_BODY: &'static str = r#"<div class="rp-head"><b id="rp-title"></b> <span class="rp-muted" id="rp-verdict"></span>
  <div class="rp-legend"><span><i class="rp-dot" style="background:#3b82f6"></i>attacker</span><span><i class="rp-dot" style="background:#ef4444"></i>defender</span><span id="rp-tick" class="rp-muted"></span></div></div>
<div class="rp-wrap"><div class="rp-board"><canvas id="rp-cv"></canvas></div>
  <div class="rp-side"><div class="rp-panel"><h3>units (id · hp · composition)</h3><div id="rp-units"></div></div>
    <div class="rp-panel"><h3>tick events</h3><div id="rp-events" class="rp-events"></div></div></div></div>
<div class="rp-ctrl"><button id="rp-play">▶ play</button><button id="rp-step">step ▸</button>
  <input id="rp-scrub" type="range" min="0" value="0" step="1"><span id="rp-pos" class="rp-muted"></span></div>
"#;

/// Draws one frame.
pub const RENDERER_JS: &'static str = r#"
// Pure drawing primitives. Frame schema: creeps[id,ri,x,y,owner,hits,hmax,comp[T,A,RA,W,C,H,M]];
// structs[ri,x,y,kind,owner,hits,hmax]; towers[ri,x,y,owner,energy,hits].
window.IbexRenderer = (function(){
  const CELL=11, ROOM=50, GAP=18, PAD=18;
  // Place rooms by their TRUE world geometry, not array index: Screeps Wx INCREASES westward and Ny
  // INCREASES northward, so a name-sorted index layout mirrors the map (W2N1 drawn right of W1N1). Parse
  // WxNy/ExSy to a signed world cell — east=+col (right), west=-col (left); south=+row (down), north=
  // -row (up) — so cross-border movement reads continuously.
  function parseRoom(name){ const m=/^([WE])(\d+)([NS])(\d+)$/.exec(name||''); if(!m) return [0,0];
    const c=(m[1]==='E')?(+m[2]):(-(+m[2])-1), r=(m[3]==='S')?(+m[4]):(-(+m[4])-1); return [c,r]; }
  function layout(meta){ const cells=(meta.rooms||[]).map(function(rm){ return parseRoom(rm.name); });
    let minc=0,minr=0,maxc=0,maxr=0;
    cells.forEach(function(p,i){ if(i===0){minc=maxc=p[0];minr=maxr=p[1];} else {
      if(p[0]<minc)minc=p[0]; if(p[0]>maxc)maxc=p[0]; if(p[1]<minr)minr=p[1]; if(p[1]>maxr)maxr=p[1]; } });
    return { cells:cells, minc:minc, minr:minr, cols:(maxc-minc+1), rows:(maxr-minr+1) }; }
  function dims(meta){ const L=layout(meta), rw=ROOM*CELL;
    return { w:PAD+L.cols*(rw+GAP), h:PAD+L.rows*(rw+GAP+14), rw }; }
  function origin(meta, ri){ const L=layout(meta), rw=ROOM*CELL, p=L.cells[ri]||[L.minc,L.minr];
    const col=p[0]-L.minc, row=p[1]-L.minr;
    return [PAD+col*(rw+GAP), PAD+row*(rw+GAP+14)+14]; }
  function ownerColor(o){ return o===0?'#3b82f6':'#ef4444'; }
  function drawShape(ctx, prims, ox, oy, sx, sy, extraOp){
    for(const p of prims){ const cx=ox+(sx+0.5+(p.x||0))*CELL, cy=oy+(sy+0.5+(p.y||0))*CELL;
      ctx.globalAlpha=(p.o==null?1:p.o)*extraOp;
      if(p.t==='c'){ ctx.beginPath(); ctx.arc(cx,cy,p.r*CELL,0,7); if(p.f){ctx.fillStyle=p.f;ctx.fill();} if(p.s){ctx.lineWidth=Math.max(1,p.sw*CELL);ctx.strokeStyle=p.s;ctx.stroke();} }
      else if(p.t==='r'){ const w=p.w*CELL,h=p.h*CELL; if(p.f){ctx.fillStyle=p.f;ctx.fillRect(cx-w/2,cy-h/2,w,h);} if(p.s){ctx.lineWidth=Math.max(1,p.sw*CELL);ctx.strokeStyle=p.s;ctx.strokeRect(cx-w/2,cy-h/2,w,h);} }
      else if(p.t==='p'){ ctx.beginPath(); p.pts.forEach((pt,i)=>{ const X=ox+(sx+0.5+pt[0])*CELL, Y=oy+(sy+0.5+pt[1])*CELL; i?ctx.lineTo(X,Y):ctx.moveTo(X,Y); }); ctx.closePath(); if(p.f){ctx.fillStyle=p.f;ctx.fill();} if(p.s){ctx.lineWidth=Math.max(1,p.sw*CELL);ctx.strokeStyle=p.s;ctx.stroke();} }
    }
    ctx.globalAlpha=1;
  }
  function draw(ctx, frame, meta, shapes){
    const d=dims(meta); ctx.clearRect(0,0,d.w,d.h);
    meta.rooms.forEach((rm,ri)=>{ const [ox,oy]=origin(meta,ri);
      ctx.fillStyle='#070b16'; ctx.fillRect(ox,oy,d.rw,d.rw);
      ctx.fillStyle='#0f2a1c'; (rm.swamps||[]).forEach(([x,y])=>ctx.fillRect(ox+x*CELL,oy+y*CELL,CELL,CELL));
      ctx.fillStyle='#475569'; (rm.walls||[]).forEach(([x,y])=>ctx.fillRect(ox+x*CELL,oy+y*CELL,CELL,CELL));
      ctx.strokeStyle='#334155'; ctx.strokeRect(ox,oy,d.rw,d.rw);
      ctx.fillStyle='#94a3b8'; ctx.font='11px monospace'; ctx.fillText(rm.name,ox,oy-3);
    });
    for(const s of frame.structs){ if(s[0]<0)continue; const [ox,oy]=origin(meta,s[0]);
      const op=s[3]===2?Math.max(0.2, s[5]/Math.max(1,s[6])):1; drawShape(ctx, shapes[s[3]], ox,oy, s[1], s[2], op); }
    for(const t of frame.towers){ if(t[0]<0)continue; const [ox,oy]=origin(meta,t[0]); drawShape(ctx, shapes[1], ox,oy, t[1], t[2], 1);
      const frac=Math.max(0,Math.min(1, t[4]/100000)); ctx.fillStyle='#22d3ee'; ctx.fillRect(ox+t[1]*CELL, oy+t[2]*CELL+CELL-2, CELL*frac, 2); }
    for(const c of frame.creeps){ const ri=c[1]; if(ri<0)continue; const [ox,oy]=origin(meta,ri);
      const hits=c[5], hmax=c[6], frac=hmax>0?hits/hmax:0;
      const base=Math.min(CELL*0.5, 2 + hmax/1400);            // bigger creep = bigger dot (tankiness cue)
      const r=Math.max(1.6, base*Math.max(0.3,frac));
      ctx.beginPath(); ctx.arc(ox+(c[2]+0.5)*CELL, oy+(c[3]+0.5)*CELL, r, 0, 7); ctx.fillStyle=ownerColor(c[4]); ctx.fill();
      ctx.lineWidth=1; ctx.strokeStyle='#0b1020'; ctx.stroke(); }
  }
  return { draw, dims, ownerColor };
})();
"#;

/// Plays, scrubs and inspects the frames.
pub const PLAYER_JS: &'static str = r#"
// Playback + scrub + the unit inspector. Robust scrubbing: clamp the index, stop playback on input.
window.IbexReplay = (function(){
  const PART=['T','A','RA','W','C','H','M'];
  function compStr(m){ return m.map((n,i)=>n>0?PART[i]+n:'').filter(Boolean).join(' '); }
  function start(replay){
    const meta=replay.meta, frames=replay.frames||[], shapes=replay.shapes||[];
    const $=function(id){ return document.getElementById(id); };
    const cv=$('rp-cv'); if(!cv) return; const ctx=cv.getContext('2d');
    const d=IbexRenderer.dims(meta); cv.width=d.w; cv.height=d.h;
    $('rp-title').textContent=meta.title||'';
    if(meta.verdict) $('rp-verdict').textContent='— '+meta.verdict;
    const scrub=$('rp-scrub'); scrub.min=0; scrub.max=Math.max(0,frames.length-1); scrub.step=1;
    const last=frames.length?frames[frames.length-1].t:0;
    let cur=0, timer=null;
    function clamp(i){ i=i|0; if(i<0)i=0; if(i>frames.length-1)i=frames.length-1; return i; }
    function units(f){
      const rows=(f.creeps||[]).slice().sort((a,b)=> a[4]-b[4] || a[0]-b[0]).map(function(c){
        const owner=c[4], hits=c[5], hmax=c[6], comp=c[7]||[], frac=hmax>0?Math.round(100*hits/hmax):0;
        const color=IbexRenderer.ownerColor(owner);
        return '<div class="rp-unit"><i class="rp-dot" style="background:'+color+'"></i>'+
          '<span>#'+c[0]+'</span>'+
          '<span class="rp-bar"><i style="width:'+frac+'%;background:'+color+'"></i></span>'+
          '<span class="rp-muted">'+hits+'/'+hmax+'</span>'+
          '<span class="rp-comp">'+compStr(comp)+'</span></div>';
      });
      $('rp-units').innerHTML = rows.join('') || '<div class="rp-muted">(none)</div>';
    }
    function events(f){
      const nd=$('rp-events'); nd.innerHTML='';
      (f.notes||[]).forEach(function(n){ const x=document.createElement('div'); x.textContent=n; nd.appendChild(x); });
    }
    function render(){
      if(!frames.length){ ctx.fillStyle='#94a3b8'; ctx.font='13px monospace'; ctx.fillText('(empty recording)',20,20); return; }
      cur=clamp(cur); const f=frames[cur];
      IbexRenderer.draw(ctx, f, meta, shapes);
      $('rp-tick').textContent='tick '+f.t+' / '+last;
      $('rp-pos').textContent=(cur+1)+'/'+frames.length;
      if(scrub.value!=cur) scrub.value=cur;
      units(f); events(f);
    }
    function stop(){ if(timer){ clearInterval(timer); timer=null; $('rp-play').textContent='▶ play'; } }
    scrub.addEventListener('input', function(){ stop(); cur=clamp(+scrub.value); render(); });
    $('rp-step').addEventListener('click', function(){ stop(); cur=clamp(cur+1); render(); });
    $('rp-play').addEventListener('click', function(){
      if(timer){ stop(); return; }
      if(cur>=frames.length-1) cur=0;
      $('rp-play').textContent='⏸ pause';
      timer=setInterval(function(){ if(cur>=frames.length-1){ stop(); return; } cur++; render(); }, 100);
    });
    render();
  }
  return { start: start };
})();
"#;

} // verus!
